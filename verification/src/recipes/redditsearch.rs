//! Searching Reddit.
use vstd::prelude::*;

use crate::encode::{
    address_of, lemma_one_part, query_pairs, query_part, url_encoded, urlencode,
};
use crate::json::{
    entries_view, field, field_or_null, items_field, opt_text_view, outcome_view, put, text_field,
    views, Json, JsonView,
};
use crate::names::{lemma_param_names, lemma_result_names};
use crate::number::{integer_in, law_decimal_is_read_back, lemma_decimal_value, parse_integer};
use crate::recipes::{
    bears_only, bears_text, carries, in_tab, is_search_outcome, keep_titled, law_titled_places,
    navigate_call, navigate_view, picks, scrape_call, scrape_view, search_outcome, search_view,
    titled_items, Progress, ProgressView,
};
use crate::target::{law_locator_locates, locates, locator, locator_view};
use crate::text::{
    all_space, decimal, lemma_trimmed, lemma_trimmed_between_spaces, trim, trimmed,
};

verus! {

/// A result comes in two forms, with and without a preview of its text.
pub const RESULT_ITEM: &'static str =
    "[data-testid=\"search-post-with-content-preview\"], [data-testid=\"search-sdui-post\"]";

pub const RESULT_TITLE: &'static str = "a[data-testid=\"post-title\"]";

pub const RESULT_URL: &'static str = "a[data-testid=\"post-title-text\"]@href";

/// The preview of the text, in the form that has one.
pub const RESULT_DESC: &'static str =
    "div[data-testid=\"sdui-post-unit\"] > search-telemetry-tracker > a";

/// When a result was posted, as the page words it.
pub const RESULT_PUBLISHED: &'static str = "faceplate-timeago";

/// When a result was posted, as a timestamp.
pub const RESULT_PUBLISHED_AT: &'static str = "faceplate-timeago@ts";

/// How many votes a result has: the number behind the first counter, not its
/// wording.
pub const RESULT_VOTES: &'static str =
    "[data-testid=\"search-counter-row\"] > span:first-of-type faceplate-number@number";

/// How many comments a result has: the number behind the last counter.
pub const RESULT_COMMENTS: &'static str =
    "[data-testid=\"search-counter-row\"] > span:last-of-type faceplate-number@number";

/// The links over the results, in the order of the results.
pub const RESULT_TARGET: &'static str = "a[data-testid=\"post-title\"]";

/// The selectors of the fields of a result.
pub open spec fn result_fields() -> Map<Seq<char>, JsonView> {
    Map::empty().insert("title"@, JsonView::Text(RESULT_TITLE@)).insert(
        "url"@,
        JsonView::Text(RESULT_URL@),
    ).insert("description"@, JsonView::Text(RESULT_DESC@)).insert(
        "published"@,
        JsonView::Text(RESULT_PUBLISHED@),
    ).insert("published_at"@, JsonView::Text(RESULT_PUBLISHED_AT@)).insert(
        "votes"@,
        JsonView::Text(RESULT_VOTES@),
    ).insert("comments"@, JsonView::Text(RESULT_COMMENTS@))
}

fn field_selectors() -> (r: Vec<(String, Json)>)
    ensures
        entries_view(r@) == result_fields(),
{
    let mut fields: Vec<(String, Json)> = Vec::new();
    put(&mut fields, "title", Json::text(RESULT_TITLE));
    put(&mut fields, "url", Json::text(RESULT_URL));
    put(&mut fields, "description", Json::text(RESULT_DESC));
    put(&mut fields, "published", Json::text(RESULT_PUBLISHED));
    put(&mut fields, "published_at", Json::text(RESULT_PUBLISHED_AT));
    put(&mut fields, "votes", Json::text(RESULT_VOTES));
    put(&mut fields, "comments", Json::text(RESULT_COMMENTS));
    fields
}

/// The text under a key of an item; `null` where there is none.
pub open spec fn wording(item: JsonView, key: Seq<char>) -> JsonView {
    opt_text_view(text_field(item, key))
}

/// The number under a key of an item, as an integer, which it may be or be written
/// as; `null` where there is none.
pub open spec fn count(item: JsonView, key: Seq<char>) -> JsonView {
    match field(item, key) {
        Some(JsonView::Int(i)) => if i64::MIN <= i <= i64::MAX {
            JsonView::Int(i)
        } else {
            JsonView::Null
        },
        Some(JsonView::Text(s)) => match integer_in(trimmed(s)) {
            Some(i) => JsonView::Int(i),
            None => JsonView::Null,
        },
        _ => JsonView::Null,
    }
}

fn counted(item: &Json, key: &str) -> (r: Json)
    ensures
        r@ == count(item@, key@),
{
    let value = match item.get(key) {
        Some(value) => value,
        None => {
            return Json::Null;
        },
    };
    if let Some(i) = value.as_integer() {
        return Json::integer(i);
    }
    match value.as_str() {
        Some(s) => match parse_integer(trim(s).as_str()) {
            Some(i) => Json::integer(i),
            None => Json::Null,
        },
        None => Json::Null,
    }
}

/// A search result: the fields of an item, its counts as integers, and where to click for it.
pub open spec fn card_view(item: JsonView, index: int) -> JsonView {
    JsonView::Object(
        Map::empty().insert("title"@, field_or_null(item, "title"@)).insert(
            "description"@,
            field_or_null(item, "description"@),
        ).insert("published"@, wording(item, "published"@)).insert(
            "published_at"@,
            wording(item, "published_at"@),
        ).insert("votes"@, count(item, "votes"@)).insert("comments"@, count(item, "comments"@)).insert("url"@, field_or_null(item, "url"@)).insert(
            "target"@,
            locator_view("css"@, RESULT_TARGET@, Some(index)),
        ),
    )
}

/// A search result has eight entries, and its counts are integers or `null`.
pub proof fn law_reddit_card(item: JsonView, index: int)
    ensures
        card_view(item, index) matches JsonView::Object(card) && {
            &&& card.dom() == set![
                "title"@,
                "description"@,
                "published"@,
                "published_at"@,
                "votes"@,
                "comments"@,
                "url"@,
                "target"@,
            ]
            &&& card["votes"@] is Int || card["votes"@] is Null
            &&& card["comments"@] is Int || card["comments"@] is Null
        },
{
    reveal_strlit("votes");
    reveal_strlit("comments");
    reveal_strlit("url");
    reveal_strlit("target");
    assert("votes"@.len() == 5 && "comments"@.len() == 8 && "url"@.len() == 3 && "target"@.len()
        == 6);
    let card = card_view(item, index)->Object_0;
    assert(card.dom() =~= set![
        "title"@,
        "description"@,
        "published"@,
        "published_at"@,
        "votes"@,
        "comments"@,
        "url"@,
        "target"@,
    ]);
}

/// The items with a title as search results, each with the number it has among
/// them.
pub open spec fn card_views(items: Seq<JsonView>) -> Seq<JsonView> {
    let kept = titled_items(items);
    Seq::new(kept.len(), |i: int| card_view(kept[i], i))
}

/// The search results among the items of a page.
pub fn cards(items: &Vec<Json>) -> (r: Vec<Json>)
    ensures
        views(r@) == card_views(views(items@)),
{
    let kept = keep_titled(items);
    let mut out: Vec<Json> = Vec::new();
    let mut i: usize = 0;
    while i < kept.len()
        invariant
            i <= kept@.len(),
            out@.len() == i,
            forall|k: int| 0 <= k < i ==> (#[trigger] out@[k])@ == card_view(kept@[k]@, k),
        decreases kept.len() - i,
    {
        let item = &kept[i];
        let mut entries: Vec<(String, Json)> = Vec::new();
        put(&mut entries, "title", item.get_or_null("title"));
        put(&mut entries, "description", item.get_or_null("description"));
        put(&mut entries, "published", Json::opt_text(item.get_str("published")));
        put(&mut entries, "published_at", Json::opt_text(item.get_str("published_at")));
        put(&mut entries, "votes", counted(item, "votes"));
        put(&mut entries, "comments", counted(item, "comments"));
        put(&mut entries, "url", item.get_or_null("url"));
        put(&mut entries, "target", locator("css", RESULT_TARGET, Some(i)));
        out.push(Json::Object(entries));
        i += 1;
    }
    proof {
        let all = titled_items(views(items@));
        assert(all == views(kept@));
        assert(views(out@) =~= card_views(views(items@)));
    }
    out
}

/// How far a search is. `J` is the type of the values that it keeps.
#[derive(Debug)]
pub enum RedditSearch<J> {
    /// The page of results is being opened.
    Opening { tab: Option<i32> },
    /// The results are being read.
    Reading { tab_id: J },
}

impl View for RedditSearch<Json> {
    type V = RedditSearch<JsonView>;

    open spec fn view(&self) -> RedditSearch<JsonView> {
        match self {
            RedditSearch::Opening { tab } => RedditSearch::Opening { tab: *tab },
            RedditSearch::Reading { tab_id } => RedditSearch::Reading { tab_id: tab_id@ },
        }
    }
}

/// How a search begins: with its page of results.
pub open spec fn redditsearch_start(query: Seq<char>, tab: Option<i32>) -> ProgressView<
    RedditSearch<JsonView>,
> {
    ProgressView::Ask(
        RedditSearch::Opening { tab },
        navigate_view("rs1"@, "https://www.reddit.com/search/?q="@ + url_encoded(query), tab),
    )
}

/// How a search goes on after each command.
pub open spec fn redditsearch_next(
    state: RedditSearch<JsonView>,
    reply: Result<JsonView, Seq<char>>,
) -> ProgressView<RedditSearch<JsonView>> {
    match (state, reply) {
        (_, Err(e)) => ProgressView::Done(Err(e)),
        (RedditSearch::Opening { tab }, Ok(nav)) => ProgressView::Ask(
            RedditSearch::Reading { tab_id: field_or_null(nav, "tab_id"@) },
            scrape_view("rs2"@, RESULT_ITEM@, result_fields(), tab),
        ),
        (RedditSearch::Reading { tab_id }, Ok(scraped)) => ProgressView::Done(
            Ok(search_view(tab_id, card_views(items_field(scraped, "items"@)))),
        ),
    }
}

/// A search works in the tab it is given: it never opens another one.
pub proof fn law_no_new_tab(
    query: Seq<char>,
    tab: Option<i32>,
    state: RedditSearch<JsonView>,
    reply: Result<JsonView, Seq<char>>,
)
    ensures
        redditsearch_start(query, tab) matches ProgressView::Ask(next, call) && call.method
            != "new_tab"@,
        redditsearch_next(state, reply) matches ProgressView::Ask(next, call) ==> call.method
            != "new_tab"@,
{
    reveal_strlit("navigate");
    reveal_strlit("scrape");
    reveal_strlit("new_tab");
    assert("navigate"@.len() == 8 && "scrape"@.len() == 6 && "new_tab"@.len() == 7);
}

proof fn lemma_address()
    ensures
        forall|i: int|
            0 <= i < "https://www.reddit.com/search/"@.len() ==> #[trigger] "https://www.reddit.com/search/"@[i] != '?' && "https://www.reddit.com/search/"@[i] != '#',
{
    reveal_strlit("https://www.reddit.com/search/");
    let s = "https://www.reddit.com/search/"@;
    assert forall|i: int| 0 <= i < s.len() implies #[trigger] s[i] != '?' && s[i] != '#' by {
        assert(i == 0 || i == 1 || i == 2 || i == 3 || i == 4 || i == 5 || i == 6 || i == 7 || i == 8 || i == 9 || i == 10 || i == 11 || i == 12 || i == 13 || i == 14 || i == 15 || i == 16 || i == 17 || i == 18 || i == 19 || i == 20 || i == 21 || i == 22 || i == 23 || i == 24 || i == 25 || i == 26 || i == 27 || i == 28 || i == 29);
    }
}

/// A search opens the page of results of Reddit for the query that was given, in
/// the tab that was given.
pub proof fn law_search_asks_for_its_query(query: Seq<char>, tab: Option<i32>)
    ensures
        redditsearch_start(query, tab) matches ProgressView::Ask(_, call) && {
            &&& call.method == "navigate"@
            &&& in_tab(call, tab)
            &&& bears_only(call, set!["url"@, "tab_id"@])
            &&& field(call.params, "url"@) matches Some(JsonView::Text(url)) && address_of(url)
                == "https://www.reddit.com/search/"@ && query_pairs(url) == seq![("q"@, query)]
        },
{
    lemma_param_names();
    lemma_address();
    let base = "https://www.reddit.com/search/"@;
    reveal_strlit("https://www.reddit.com/search/");
    reveal_strlit("https://www.reddit.com/search/?q=");
    reveal_strlit("q");
    lemma_one_part(base, "q"@, query);
    assert("https://www.reddit.com/search/?q="@ =~= base + seq!['?'] + "q"@ + seq!['=']);
    assert("https://www.reddit.com/search/?q="@ + url_encoded(query) =~= base + seq!['?']
        + query_part("q"@, query));
}

/// After the page of results has been opened, its items are read in the same tab,
/// each of their fields by its own selector.
pub proof fn law_search_reads_its_results(query: Seq<char>, tab: Option<i32>, nav: JsonView)
    ensures
        redditsearch_start(query, tab) matches ProgressView::Ask(state, _) && (redditsearch_next(
            state,
            Ok(nav),
        ) matches ProgressView::Ask(_, call) && {
            &&& call.method == "scrape"@
            &&& in_tab(call, tab)
            &&& bears_text(
                call,
                "item"@,
                "[data-testid=\"search-post-with-content-preview\"], [data-testid=\"search-sdui-post\"]"@,
            )
            &&& field(call.params, "timeout"@) == Some(JsonView::Int(10_000))
            &&& bears_only(call, set!["item"@, "fields"@, "timeout"@, "tab_id"@])
            &&& field(call.params, "fields"@) matches Some(fields) && {
                &&& field(fields, "title"@) == Some(
                    JsonView::Text("a[data-testid=\"post-title\"]"@),
                )
                &&& field(fields, "url"@) == Some(
                    JsonView::Text("a[data-testid=\"post-title-text\"]@href"@),
                )
                &&& field(fields, "description"@) == Some(
                    JsonView::Text("div[data-testid=\"sdui-post-unit\"] > search-telemetry-tracker > a"@),
                )
                &&& field(fields, "published"@) == Some(
                    JsonView::Text("faceplate-timeago"@),
                )
                &&& field(fields, "published_at"@) == Some(
                    JsonView::Text("faceplate-timeago@ts"@),
                )
                &&& field(fields, "votes"@) == Some(
                    JsonView::Text("[data-testid=\"search-counter-row\"] > span:first-of-type faceplate-number@number"@),
                )
                &&& field(fields, "comments"@) == Some(
                    JsonView::Text("[data-testid=\"search-counter-row\"] > span:last-of-type faceplate-number@number"@),
                )
                &&& forall|name: Seq<char>| #[trigger]
                    field(fields, name) is Some ==> name == "title"@ || name == "url"@ || name == "description"@ || name == "published"@ || name == "published_at"@ || name == "votes"@ || name == "comments"@
            }
        }),
{
    lemma_param_names();
    lemma_result_names();
}

/// Whether a result is made of an item, as the one with a number: it bears title,
/// description and address as they are, the words and the time of posting where
/// they are texts, votes and comments as integers, and says where to click.
pub open spec fn is_card_of(card: JsonView, item: JsonView, number: int) -> bool {
    &&& forall|name: Seq<char>|
        name == "title"@ || name == "description"@ || name == "url"@ ==> #[trigger] carries(
            card,
            item,
            name,
        )
    &&& forall|name: Seq<char>|
        name == "published"@ || name == "published_at"@ ==> #[trigger] field(card, name) == Some(
            match field(item, name) {
                Some(JsonView::Text(t)) => JsonView::Text(t),
                _ => JsonView::Null,
            },
        )
    &&& forall|name: Seq<char>|
        name == "votes"@ || name == "comments"@ ==> #[trigger] field(card, name) == Some(
            match field(item, name) {
                Some(JsonView::Int(i)) => if i64::MIN <= i <= i64::MAX {
                    JsonView::Int(i)
                } else {
                    JsonView::Null
                },
                Some(JsonView::Text(t)) => match integer_in(trimmed(t)) {
                    Some(i) => JsonView::Int(i),
                    None => JsonView::Null,
                },
                _ => JsonView::Null,
            },
        )
    &&& field(card, "target"@) matches Some(target) && locates(
        target,
        "css"@,
        "a[data-testid=\"post-title\"]"@,
        Some(number),
    )
}

/// The results are the items with a title, all of them and in their order, each made
/// of its own item.
pub proof fn law_results_are_made_of_items(items: Seq<JsonView>) -> (at: Seq<int>)
    ensures
        picks(
            at,
            items.len() as int,
            |i: int|
                field(items[i], "title"@) matches Some(JsonView::Text(t)) && !all_space(t),
        ),
        card_views(items).len() == at.len(),
        forall|k: int|
            0 <= k < at.len() ==> is_card_of(#[trigger] card_views(items)[k], items[at[k]], k),
{
    let at = law_titled_places(items);
    lemma_result_names();
    assert forall|k: int| 0 <= k < at.len() implies is_card_of(
        #[trigger] card_views(items)[k],
        items[at[k]],
        k,
    ) by {
        assert(titled_items(items)[k] == items[at[k]]);
        law_locator_locates("css"@, "a[data-testid=\"post-title\"]"@, Some(k));
    }
    at
}

/// A count that is written in digits, with white space around it or without, is
/// returned as the number that it is.
pub proof fn law_written_counts(item: JsonView, name: Seq<char>, a: Seq<char>, n: nat, b: Seq<char>)
    requires
        n <= i64::MAX,
        all_space(a),
        all_space(b),
        field(item, name) == Some(JsonView::Text(a + decimal(n) + b)),
    ensures
        count(item, name) == JsonView::Int(n as int),
{
    let d = decimal(n);
    lemma_decimal_value(n);
    law_decimal_is_read_back(n, i64::MAX as nat);
    lemma_trimmed_between_spaces(a, d, b);
    assert('0' <= d[0] <= '9' && '0' <= d[d.len() - 1] <= '9');
    lemma_trimmed(d);
}

/// The outcome of a search names the tab that the browser has named, and holds the
/// results that are made of the items of the page. A command that fails ends the
/// search with its error.
pub proof fn law_search_ends_with_its_results(
    query: Seq<char>,
    tab: Option<i32>,
    nav: JsonView,
    scraped: JsonView,
    error: Seq<char>,
)
    ensures
        redditsearch_start(query, tab) matches ProgressView::Ask(opening, _) && (
        redditsearch_next(opening, Ok(nav)) matches ProgressView::Ask(reading, _) && {
            &&& redditsearch_next(reading, Ok(scraped)) matches ProgressView::Done(Ok(out))
                && is_search_outcome(
                out,
                nav,
                card_views(
                    match field(scraped, "items"@) {
                        Some(JsonView::Array(items)) => items,
                        _ => Seq::empty(),
                    },
                ),
            )
            &&& redditsearch_next(opening, Err(error)) == ProgressView::<
                RedditSearch<JsonView>,
            >::Done(Err(error))
            &&& redditsearch_next(reading, Err(error)) == ProgressView::<
                RedditSearch<JsonView>,
            >::Done(Err(error))
        }),
{
    lemma_result_names();
}

/// Begins a search. Its outcome is `{ "tab_id": ..., "results": [...] }`, with
/// title, description, time of posting, votes, comments, address and click target
/// of each result.
pub fn redditsearch(query: &str, tab: Option<i32>) -> (r: Progress<RedditSearch<Json>>)
    ensures
        r@ == redditsearch_start(query@, tab),
{
    let mut url = "https://www.reddit.com/search/?q=".to_owned();
    url.append(urlencode(query).as_str());
    Progress::Ask(RedditSearch::Opening { tab }, navigate_call("rs1", url.as_str(), tab))
}

impl RedditSearch<Json> {
    /// Goes on with what the last command brought.
    pub fn step(self, reply: Result<Json, String>) -> (r: Progress<RedditSearch<Json>>)
        ensures
            r@ == redditsearch_next(self@, outcome_view(reply)),
    {
        let value = match reply {
            Ok(value) => value,
            Err(e) => {
                return Progress::Done(Err(e));
            },
        };
        match self {
            RedditSearch::Opening { tab } => Progress::Ask(
                RedditSearch::Reading { tab_id: value.get_or_null("tab_id") },
                scrape_call("rs2", RESULT_ITEM, field_selectors(), tab),
            ),
            RedditSearch::Reading { tab_id } => {
                let items = value.get_items("items");
                Progress::Done(Ok(search_outcome(tab_id, cards(&items))))
            },
        }
    }
}

} // verus!
