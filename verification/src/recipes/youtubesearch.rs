//! Searching YouTube.
//!
//! The results are read from the data that the page carries and, where that is
//! not enough, from the continuations of it, so nothing has to be rendered.
use vstd::prelude::*;
use vstd::hash_map::StringHashMap;

use crate::encode::{
    address_of, is_inert, lemma_one_part, lemma_two_parts, query_pairs, query_part, url_encoded,
    urlencode,
};
use crate::json::{
    bool_field, field, field_or_null, items_field, outcome_view, put, text_field, views, Json,
    JsonView,
};
use crate::names::{lemma_param_names, lemma_result_names};
use crate::recipes::youtubeinfo::{is_ok, reason_given, reason_of};
use crate::recipes::{
    bears_only, bears_text, carries, has_title, in_tab, is_search_outcome, law_titles,
    lemma_picks_more, lemma_picks_same, navigate_call, navigate_view, picks, script_call,
    script_view, search_outcome, search_view, titled, Progress, ProgressView,
};
use crate::target::{law_locator_locates, locates, locator, locator_view};
use crate::text::{all_space, decimal, decimal_text, opt_str, same};

verus! {

/// The links of the results, in the order of the results.
pub const RESULT_TARGET: &'static str = "a#video-title";

// ---------------------------------------------------------------------------
// Filters
// ---------------------------------------------------------------------------

/// The spans of upload dates that can be asked for, from `any` on; `None` for
/// any other word.
pub open spec fn upload_span(time: Seq<char>) -> Option<int> {
    if time == "any"@ || time == ""@ {
        Some(0)
    } else if time == "today"@ {
        Some(1)
    } else if time == "week"@ {
        Some(2)
    } else if time == "month"@ {
        Some(3)
    } else if time == "year"@ {
        Some(4)
    } else {
        None
    }
}

/// Whether results are to be ordered by popularity; `None` for an order that is
/// not known.
pub open spec fn by_popularity(sort: Seq<char>) -> Option<bool> {
    if sort == "relevance"@ || sort == ""@ {
        Some(false)
    } else if sort == "popularity"@ {
        Some(true)
    } else {
        None
    }
}

/// The token of a filter. Any date, ordered by relevance, needs none.
pub open spec fn filter_token(span: int, popular: bool) -> Option<Seq<char>> {
    if popular {
        if span == 0 {
            Some("CAM="@)
        } else if span == 1 {
            Some("CAMSBAgCEAE="@)
        } else if span == 2 {
            Some("CAMSBAgDEAE="@)
        } else if span == 3 {
            Some("CAMSBAgEEAE="@)
        } else {
            Some("CAMSBAgFEAE="@)
        }
    } else {
        if span == 0 {
            None
        } else if span == 1 {
            Some("EgIIAg=="@)
        } else if span == 2 {
            Some("EgIIAw=="@)
        } else if span == 3 {
            Some("EgIIBA=="@)
        } else {
            Some("EgIIBQ=="@)
        }
    }
}

/// The token that a date and an order stand for, or what is wrong with them; a
/// wrong date is reported first.
pub open spec fn filter_outcome(time: Seq<char>, sort: Seq<char>) -> Result<
    Option<Seq<char>>,
    Seq<char>,
> {
    match upload_span(time) {
        None => Err(
            "unknown upload date filter '"@ + time
                + "' (expected: any | today | week | month | year)"@,
        ),
        Some(span) => match by_popularity(sort) {
            None => Err(
                "unknown sort filter '"@ + sort + "' (expected: relevance | popularity)"@,
            ),
            Some(popular) => Ok(filter_token(span, popular)),
        },
    }
}

/// The token that a date and an order stand for.
pub fn filter_sp(time: &str, sort: &str) -> (r: Result<Option<&'static str>, String>)
    ensures
        match r {
            Ok(token) => Ok::<Option<Seq<char>>, Seq<char>>(opt_str(token)),
            Err(e) => Err::<Option<Seq<char>>, Seq<char>>(e@),
        } == filter_outcome(time@, sort@),
{
    let span: u8 = if same(time, "any") || same(time, "") {
        0
    } else if same(time, "today") {
        1
    } else if same(time, "week") {
        2
    } else if same(time, "month") {
        3
    } else if same(time, "year") {
        4
    } else {
        let mut error = "unknown upload date filter '".to_owned();
        error.append(time);
        error.append("' (expected: any | today | week | month | year)");
        return Err(error);
    };
    let popular = if same(sort, "relevance") || same(sort, "") {
        false
    } else if same(sort, "popularity") {
        true
    } else {
        let mut error = "unknown sort filter '".to_owned();
        error.append(sort);
        error.append("' (expected: relevance | popularity)");
        return Err(error);
    };
    let token: Option<&'static str> = if popular {
        match span {
            0 => Some("CAM="),
            1 => Some("CAMSBAgCEAE="),
            2 => Some("CAMSBAgDEAE="),
            3 => Some("CAMSBAgEEAE="),
            _ => Some("CAMSBAgFEAE="),
        }
    } else {
        match span {
            0 => None,
            1 => Some("EgIIAg=="),
            2 => Some("EgIIAw=="),
            3 => Some("EgIIBA=="),
            _ => Some("EgIIBQ=="),
        }
    };
    Ok(token)
}

/// Different filters have different tokens.
pub proof fn law_filter_tokens_differ(
    span_a: int,
    popular_a: bool,
    span_b: int,
    popular_b: bool,
)
    requires
        0 <= span_a <= 4,
        0 <= span_b <= 4,
        filter_token(span_a, popular_a) == filter_token(span_b, popular_b),
    ensures
        span_a == span_b,
        popular_a == popular_b,
{
    reveal_strlit("CAM=");
    reveal_strlit("CAMSBAgCEAE=");
    reveal_strlit("CAMSBAgDEAE=");
    reveal_strlit("CAMSBAgEEAE=");
    reveal_strlit("CAMSBAgFEAE=");
    reveal_strlit("EgIIAg==");
    reveal_strlit("EgIIAw==");
    reveal_strlit("EgIIBA==");
    reveal_strlit("EgIIBQ==");
    assert("CAM="@.len() == 4);
    assert("CAMSBAgCEAE="@.len() == 12 && "CAMSBAgDEAE="@.len() == 12);
    assert("CAMSBAgEEAE="@.len() == 12 && "CAMSBAgFEAE="@.len() == 12);
    assert("EgIIAg=="@.len() == 8 && "EgIIAw=="@.len() == 8);
    assert("EgIIBA=="@.len() == 8 && "EgIIBQ=="@.len() == 8);
    assert("CAMSBAgCEAE="@[7] == 'C');
    assert("CAMSBAgDEAE="@[7] == 'D');
    assert("CAMSBAgEEAE="@[7] == 'E');
    assert("CAMSBAgFEAE="@[7] == 'F');
    assert("EgIIAg=="@[4] == 'A' && "EgIIAg=="@[5] == 'g');
    assert("EgIIAw=="@[4] == 'A' && "EgIIAw=="@[5] == 'w');
    assert("EgIIBA=="@[4] == 'B' && "EgIIBA=="@[5] == 'A');
    assert("EgIIBQ=="@[4] == 'B' && "EgIIBQ=="@[5] == 'Q');
}

// ---------------------------------------------------------------------------
// Results
// ---------------------------------------------------------------------------

/// The address of an item; empty where it has none.
pub open spec fn item_url(item: JsonView) -> Seq<char> {
    match text_field(item, "url"@) {
        Some(url) => url,
        None => Seq::empty(),
    }
}

/// Whether an address is that of one of the items.
pub open spec fn has_url(items: Seq<JsonView>, url: Seq<char>) -> bool {
    exists|i: int| 0 <= i < items.len() && item_url(#[trigger] items[i]) == url
}

/// The items with a title, each address once, at its first place.
pub open spec fn distinct_items(items: Seq<JsonView>) -> Seq<JsonView>
    decreases items.len(),
{
    if items.len() == 0 {
        Seq::empty()
    } else {
        let before = distinct_items(items.drop_last());
        if has_title(items.last()) && !has_url(before, item_url(items.last())) {
            before.push(items.last())
        } else {
            before
        }
    }
}

/// A result: the fields of an item, and where to click for it.
pub open spec fn video_card(item: JsonView, index: int) -> JsonView {
    JsonView::Object(
        Map::empty().insert("title"@, field_or_null(item, "title"@)).insert(
            "channel"@,
            field_or_null(item, "channel"@),
        ).insert("views"@, field_or_null(item, "views"@)).insert(
            "published"@,
            field_or_null(item, "published"@),
        ).insert("duration"@, field_or_null(item, "duration"@)).insert(
            "url"@,
            field_or_null(item, "url"@),
        ).insert("target"@, locator_view("css"@, RESULT_TARGET@, Some(index))),
    )
}

/// The first `max` of the distinct items, as results.
pub open spec fn result_views(items: Seq<JsonView>, max: nat) -> Seq<JsonView> {
    let kept = distinct_items(items);
    Seq::new(
        if kept.len() < max {
            kept.len()
        } else {
            max
        },
        |i: int| video_card(kept[i], i),
    )
}

proof fn lemma_distinct_prefix(items: Seq<JsonView>, n: int)
    requires
        0 <= n <= items.len(),
    ensures
        distinct_items(items.take(n)).len() <= distinct_items(items).len(),
        distinct_items(items).take(distinct_items(items.take(n)).len() as int) == distinct_items(
            items.take(n),
        ),
    decreases items.len() - n,
{
    if n == items.len() {
        assert(items.take(n) =~= items);
        assert(distinct_items(items).take(distinct_items(items).len() as int) =~= distinct_items(
            items,
        ));
    } else {
        lemma_distinct_prefix(items, n + 1);
        assert(items.take(n + 1).drop_last() =~= items.take(n));
        let here = distinct_items(items.take(n));
        let next = distinct_items(items.take(n + 1));
        let whole = distinct_items(items);
        assert(next.take(here.len() as int) =~= here);
        assert(whole.take(here.len() as int) =~= whole.take(next.len() as int).take(
            here.len() as int,
        ));
    }
}

/// The results among raw items: those with a title, each address once, at most
/// `max` of them.
#[verifier::rlimit(40)]
pub fn build_results(items: &Vec<Json>, max: usize) -> (r: Vec<Json>)
    ensures
        views(r@) == result_views(views(items@), max as nat),
{
    let ghost all = views(items@);
    let mut seen: StringHashMap<()> = StringHashMap::new();
    let mut out: Vec<Json> = Vec::new();
    let mut i: usize = 0;
    assert(all.take(0).len() == 0);
    while i < items.len() && out.len() < max
        invariant
            i <= items@.len(),
            out@.len() <= max,
            all == views(items@),
            out@.len() == distinct_items(all.take(i as int)).len(),
            forall|k: int|
                0 <= k < out@.len() ==> (#[trigger] out@[k])@ == video_card(
                    distinct_items(all.take(i as int))[k],
                    k,
                ),
            forall|url: Seq<char>| #[trigger]
                seen@.contains_key(url) <==> has_url(distinct_items(all.take(i as int)), url),
        decreases items.len() - i,
    {
        let ghost before = distinct_items(all.take(i as int));
        assert(all.take(i + 1).drop_last() =~= all.take(i as int));
        assert(all.take(i + 1).last() == items@[i as int]@);
        let item = &items[i];
        if titled(item) {
            let url = match item.get_str("url") {
                Some(url) => url.to_owned(),
                None => String::new(),
            };
            assert(url@ =~= item_url(item@));
            if !seen.contains_key(url.as_str()) {
                let mut entries: Vec<(String, Json)> = Vec::new();
                put(&mut entries, "title", item.get_or_null("title"));
                put(&mut entries, "channel", item.get_or_null("channel"));
                put(&mut entries, "views", item.get_or_null("views"));
                put(&mut entries, "published", item.get_or_null("published"));
                put(&mut entries, "duration", item.get_or_null("duration"));
                put(&mut entries, "url", item.get_or_null("url"));
                put(&mut entries, "target", locator("css", RESULT_TARGET, Some(out.len())));
                out.push(Json::Object(entries));
                let ghost u = url@;
                let ghost had = seen@;
                seen.insert(url, ());
                proof {
                    let now = before.push(item@);
                    assert(now == distinct_items(all.take(i + 1)));
                    assert forall|v: Seq<char>| #[trigger]
                        seen@.contains_key(v) <==> has_url(now, v) by {
                        if has_url(before, v) {
                            let k = choose|k: int|
                                0 <= k < before.len() && item_url(#[trigger] before[k]) == v;
                            assert(item_url(now[k]) == v);
                        }
                        if v == u {
                            assert(item_url(now[before.len() as int]) == v);
                        }
                        if has_url(now, v) && v != u {
                            let k = choose|k: int|
                                0 <= k < now.len() && item_url(#[trigger] now[k]) == v;
                            assert(before[k] == now[k]);
                        }
                    }
                }
            }
        }
        i += 1;
    }
    proof {
        lemma_distinct_prefix(all, i as int);
        let kept = distinct_items(all);
        let here = distinct_items(all.take(i as int));
        if i == items@.len() {
            assert(all.take(i as int) =~= all);
        }
        assert forall|k: int| 0 <= k < here.len() implies here[k] == kept[k] by {
            assert(kept.take(here.len() as int)[k] == kept[k]);
        }
        assert(views(out@) =~= result_views(all, max as nat));
    }
    out
}

proof fn lemma_distinct_items(items: Seq<JsonView>)
    ensures
        forall|k: int|
            0 <= k < distinct_items(items).len() ==> has_title(#[trigger] distinct_items(items)[k]),
        forall|j: int, k: int|
            0 <= j < k < distinct_items(items).len() ==> item_url(
                #[trigger] distinct_items(items)[j],
            ) != item_url(#[trigger] distinct_items(items)[k]),
        forall|i: int|
            0 <= i < items.len() && has_title(#[trigger] items[i]) ==> has_url(
                distinct_items(items),
                item_url(items[i]),
            ),
    decreases items.len(),
{
    if items.len() > 0 {
        let front = items.drop_last();
        let before = distinct_items(front);
        let now = distinct_items(items);
        lemma_distinct_items(front);
        assert forall|j: int, k: int| 0 <= j < k < now.len() implies item_url(#[trigger] now[j])
            != item_url(#[trigger] now[k]) by {
            assert(now[j] == before[j]);
            if k < before.len() {
                assert(now[k] == before[k]);
            } else {
                assert(!has_url(before, item_url(items.last())));
            }
        }
        assert forall|i: int| 0 <= i < items.len() && has_title(#[trigger] items[i]) implies has_url(
            now,
            item_url(items[i]),
        ) by {
            if i < front.len() {
                assert(front[i] == items[i]);
                let k = choose|k: int|
                    0 <= k < before.len() && item_url(#[trigger] before[k]) == item_url(items[i]);
                assert(now[k] == before[k]);
            } else if !has_url(before, item_url(items.last())) {
                assert(now[before.len() as int] == items[i]);
            }
        }
    }
}

/// There are at most `max` results, no two of them have the same address, each is
/// told apart by its own position, and none is missing: where there are fewer
/// than `max`, every item with a title has its address among them.
pub proof fn law_results_are_distinct(items: Seq<JsonView>, max: nat)
    ensures
        result_views(items, max).len() <= max,
        forall|j: int, k: int|
            0 <= j < k < result_views(items, max).len() ==> item_url(
                #[trigger] distinct_items(items)[j],
            ) != item_url(#[trigger] distinct_items(items)[k]),
        forall|k: int|
            0 <= k < result_views(items, max).len() ==> #[trigger] result_views(items, max)[k]
                == video_card(distinct_items(items)[k], k),
        result_views(items, max).len() < max ==> forall|i: int|
            0 <= i < items.len() && has_title(#[trigger] items[i]) ==> has_url(
                distinct_items(items),
                item_url(items[i]),
            ),
{
    lemma_distinct_items(items);
}

/// The address of an item is the text under `url`; items without one share the empty
/// address.
pub proof fn law_addresses(item: JsonView)
    ensures
        item_url(item) == match field(item, "url"@) {
            Some(JsonView::Text(url)) => url,
            _ => Seq::<char>::empty(),
        },
{
}

/// Whether an item has a title, and no item with a title before it has its address.
pub open spec fn is_first_of_its_address(items: Seq<JsonView>, i: int) -> bool {
    &&& field(items[i], "title"@) matches Some(JsonView::Text(t)) && !all_space(t)
    &&& forall|j: int|
        0 <= j < i && (field(#[trigger] items[j], "title"@) matches Some(JsonView::Text(t))
            && !all_space(t)) ==> item_url(items[j]) != item_url(items[i])
}

proof fn lemma_distinct_places(items: Seq<JsonView>) -> (at: Seq<int>)
    ensures
        picks(at, items.len() as int, |i: int| is_first_of_its_address(items, i)),
        distinct_items(items).len() == at.len(),
        forall|k: int| 0 <= k < at.len() ==> #[trigger] distinct_items(items)[k] == items[at[k]],
    decreases items.len(),
{
    let wanted = |i: int| is_first_of_its_address(items, i);
    if items.len() == 0 {
        let none = Seq::<int>::empty();
        assert(picks(none, 0, wanted));
        none
    } else {
        let front = items.drop_last();
        let n = front.len() as int;
        let before = lemma_distinct_places(front);
        assert forall|i: int| 0 <= i < n implies is_first_of_its_address(front, i)
            == #[trigger] is_first_of_its_address(items, i) by {
            assert(front[i] == items[i]);
            assert forall|j: int| 0 <= j < i implies front[j] == #[trigger] items[j] by {}
            if is_first_of_its_address(front, i) {
                assert forall|j: int|
                    0 <= j < i && (field(#[trigger] items[j], "title"@) matches Some(
                        JsonView::Text(t),
                    ) && !all_space(t)) implies item_url(items[j]) != item_url(items[i]) by {
                    assert(front[j] == items[j]);
                }
            }
        }
        lemma_picks_same(before, n, |i: int| is_first_of_its_address(front, i), wanted);
        lemma_picks_more(before, n, wanted);
        law_titles(items[n]);
        lemma_distinct_items(front);
        let kept = distinct_items(front);
        let url = item_url(items[n]);
        assert(wanted(n) <==> has_title(items[n]) && !has_url(kept, url)) by {
            if has_url(kept, url) {
                let k = choose|k: int| 0 <= k < kept.len() && item_url(#[trigger] kept[k]) == url;
                law_titles(kept[k]);
                assert(kept[k] == front[before[k]]);
                assert(items[before[k]] == front[before[k]]);
            }
            if has_title(items[n]) && !wanted(n) {
                let j = choose|j: int|
                    0 <= j < n && (field(#[trigger] items[j], "title"@) matches Some(
                        JsonView::Text(t),
                    ) && !all_space(t)) && item_url(items[j]) == url;
                law_titles(items[j]);
                assert(front[j] == items[j]);
            }
        }
        if wanted(n) {
            let at = before.push(n);
            assert forall|k: int| 0 <= k < at.len() implies #[trigger] distinct_items(items)[k]
                == items[at[k]] by {
                if k < before.len() {
                    assert(kept[k] == front[before[k]]);
                }
            }
            at
        } else {
            assert forall|k: int| 0 <= k < before.len() implies #[trigger] distinct_items(items)[k]
                == items[before[k]] by {
                assert(kept[k] == front[before[k]]);
            }
            before
        }
    }
}

/// Whether a result is made of an item, as the one with a number: it bears each of
/// the fields of the item under its own name, or `null` where the item has none, and
/// says where to click: on the link with its number.
pub open spec fn is_video_of(card: JsonView, item: JsonView, number: int) -> bool {
    &&& forall|name: Seq<char>|
        name == "title"@ || name == "channel"@ || name == "views"@ || name == "published"@ || name
            == "duration"@ || name == "url"@ ==> #[trigger] carries(card, item, name)
    &&& field(card, "target"@) matches Some(target) && locates(
        target,
        "css"@,
        "a#video-title"@,
        Some(number),
    )
    &&& forall|name: Seq<char>| #[trigger]
        field(card, name) is Some ==> name == "title"@ || name == "channel"@ || name == "views"@
            || name == "published"@ || name == "duration"@ || name == "url"@ || name == "target"@
}

/// The results are the items with a title, each address once at its first place, in
/// their order and up to the number that is wanted. Each result is made of its own
/// item.
pub proof fn law_results_are_made_of_items(items: Seq<JsonView>, max: nat) -> (at: Seq<int>)
    ensures
        picks(at, items.len() as int, |i: int| is_first_of_its_address(items, i)),
        result_views(items, max).len() == if at.len() < max {
            at.len()
        } else {
            max
        },
        forall|k: int|
            0 <= k < result_views(items, max).len() ==> is_video_of(
                #[trigger] result_views(items, max)[k],
                items[at[k]],
                k,
            ),
{
    let at = lemma_distinct_places(items);
    lemma_result_names();
    assert forall|k: int| 0 <= k < result_views(items, max).len() implies is_video_of(
        #[trigger] result_views(items, max)[k],
        items[at[k]],
        k,
    ) by {
        assert(distinct_items(items)[k] == items[at[k]]);
        law_locator_locates("css"@, "a#video-title"@, Some(k));
    }
    at
}

// ---------------------------------------------------------------------------
// The recipe
// ---------------------------------------------------------------------------

/// The script that collects the items in the page: what stands before the number
/// of items that are wanted.
pub const FETCH_SCRIPT_HEAD: &'static str = r#"(async () => {
  const MAX = "#;

/// What stands after that number.
pub const FETCH_SCRIPT_TAIL: &'static str = r#";
  const html = document.documentElement.outerHTML;
  const parseInitial = (text) => {
    const m = text.match(/var ytInitialData = (\{.*?\});<\/script>/s);
    if (!m) return null;
    try { return JSON.parse(m[1]); } catch (e) { return null; }
  };
  const extract = (data) => {
    const items = [];
    let token = null;
    const walk = (o) => {
      if (!o || typeof o !== "object") return;
      if (o.videoRenderer) {
        const v = o.videoRenderer;
        const title = v.title && v.title.runs ? v.title.runs.map((x) => x.text || "").join("") : "";
        let url = v.navigationEndpoint && v.navigationEndpoint.commandMetadata && v.navigationEndpoint.commandMetadata.webCommandMetadata ? v.navigationEndpoint.commandMetadata.webCommandMetadata.url : null;
        if (url && !url.startsWith("http")) url = "https://www.youtube.com" + url;
        items.push({
          title,
          url,
          channel: v.ownerText && v.ownerText.runs ? v.ownerText.runs.map((x) => x.text || "").join("") : null,
          views: v.viewCountText ? v.viewCountText.simpleText : null,
          published: v.publishedTimeText ? v.publishedTimeText.simpleText : null,
          duration: v.lengthText ? v.lengthText.simpleText : null,
        });
      } else if (!token && o.continuationItemRenderer && o.continuationItemRenderer.continuationEndpoint && o.continuationItemRenderer.continuationEndpoint.continuationCommand) {
        token = o.continuationItemRenderer.continuationEndpoint.continuationCommand.token;
      }
      for (const val of Object.values(o)) walk(val);
    };
    walk(data);
    return { items, token };
  };
  const data = parseInitial(html);
  if (!data) return { ok: false, reason: "no ytInitialData" };
  const first = extract(data);
  const items = first.items;
  let token = first.token;
  const keyM = html.match(/"INNERTUBE_API_KEY":"([^"]+)"/);
  let context = null;
  const ctxStart = html.indexOf("\"INNERTUBE_CONTEXT\":");
  if (ctxStart >= 0) {
    const start = html.indexOf("{", ctxStart);
    let depth = 0, inStr = false, esc = false, end = -1;
    for (let j = start; j < html.length; j++) {
      const ch = html[j];
      if (inStr) {
        if (esc) esc = false;
        else if (ch === "\\") esc = true;
        else if (ch === "\"") inStr = false;
        continue;
      }
      if (ch === "\"") inStr = true;
      else if (ch === "{") depth++;
      else if (ch === "}") { depth--; if (depth === 0) { end = j; break; } }
    }
    if (end > 0) { try { context = JSON.parse(html.slice(start, end + 1)); } catch (e) {} }
  }
  const api = async (body) => {
    if (!keyM || !context) return null;
    try {
      const r = await fetch("/youtubei/v1/search?key=" + encodeURIComponent(keyM[1]), { method: "POST", headers: { "content-type": "application/json" }, body: JSON.stringify(body) });
      const j = await r.json();
      if (!j || j.error) return null;
      return j;
    } catch (e) { return null; }
  };
  const seen = new Set(items.map((x) => x.url));
  let rounds = 0;
  while (items.length < MAX && token && rounds < 12) {
    const j = await api({ context, continuation: token });
    if (!j) break;
    const next = extract(j);
    for (const it of next.items) {
      if (it.url && !seen.has(it.url)) { seen.add(it.url); items.push(it); }
    }
    token = next.token;
    rounds++;
  }
  return { ok: true, items: items.slice(0, MAX), total: items.length, rounds };
})()"#;

/// The script that collects up to `max` items.
pub open spec fn fetch_script_text(max: nat) -> Seq<char> {
    FETCH_SCRIPT_HEAD@ + decimal(max) + FETCH_SCRIPT_TAIL@
}

fn fetch_script(max: usize) -> (r: String)
    ensures
        r@ == fetch_script_text(max as nat),
{
    let mut script = FETCH_SCRIPT_HEAD.to_owned();
    script.append(decimal_text(max as u64).as_str());
    script.append(FETCH_SCRIPT_TAIL);
    script
}

/// How far a search is. `J` is the type of the values that it keeps.
#[derive(Debug)]
pub enum YoutubeSearch<J> {
    /// The page of results is being opened.
    Opening { max: usize },
    /// The results are being read.
    Reading { max: usize, tab_id: J },
}

impl View for YoutubeSearch<Json> {
    type V = YoutubeSearch<JsonView>;

    open spec fn view(&self) -> YoutubeSearch<JsonView> {
        match self {
            YoutubeSearch::Opening { max } => YoutubeSearch::Opening { max: *max },
            YoutubeSearch::Reading { max, tab_id } => YoutubeSearch::Reading {
                max: *max,
                tab_id: tab_id@,
            },
        }
    }
}

/// The page of results for a query.
pub open spec fn results_page(query: Seq<char>, token: Option<Seq<char>>) -> Seq<char> {
    let page = "https://www.youtube.com/results?search_query="@ + url_encoded(query);
    match token {
        Some(token) => page + "&sp="@ + url_encoded(token),
        None => page,
    }
}

/// At least one result is asked for.
pub open spec fn at_least_one(max: usize) -> usize {
    if max == 0 {
        1
    } else {
        max
    }
}

/// How a search begins.
pub open spec fn youtubesearch_start(
    query: Seq<char>,
    time: Seq<char>,
    sort: Seq<char>,
    max: usize,
    tab: Option<i32>,
) -> ProgressView<YoutubeSearch<JsonView>> {
    match filter_outcome(time, sort) {
        Ok(token) => ProgressView::Ask(
            YoutubeSearch::Opening { max: at_least_one(max) },
            navigate_view("yt1"@, results_page(query, token), tab),
        ),
        Err(e) => ProgressView::Done(Err(e)),
    }
}

/// What is made of the result of the script.
pub open spec fn search_result(tab_id: JsonView, max: usize, result: JsonView) -> Result<
    JsonView,
    Seq<char>,
> {
    if bool_field(result, "ok"@) == Some(true) {
        Ok(search_view(tab_id, result_views(items_field(result, "items"@), max as nat)))
    } else {
        Err(
            "YouTube 页面数据缺失（"@ + reason_given(result)
                + "），可能是验证/consent 墙；确认浏览器登录状态正常后重试"@,
        )
    }
}

/// How a search goes on after each command.
pub open spec fn youtubesearch_next(
    state: YoutubeSearch<JsonView>,
    reply: Result<JsonView, Seq<char>>,
) -> ProgressView<YoutubeSearch<JsonView>> {
    match (state, reply) {
        (_, Err(e)) => ProgressView::Done(Err(e)),
        (YoutubeSearch::Opening { max }, Ok(nav)) => {
            let tab_id = field_or_null(nav, "tab_id"@);
            ProgressView::Ask(
                YoutubeSearch::Reading { max, tab_id },
                script_view("yt2"@, fetch_script_text(max as nat), tab_id),
            )
        },
        (YoutubeSearch::Reading { max, tab_id }, Ok(fetched)) => ProgressView::Done(
            search_result(tab_id, max, field_or_null(fetched, "result"@)),
        ),
    }
}

proof fn lemma_address()
    ensures
        forall|i: int|
            0 <= i < "https://www.youtube.com/results"@.len() ==> #[trigger] "https://www.youtube.com/results"@[i] != '?' && "https://www.youtube.com/results"@[i] != '#',
{
    reveal_strlit("https://www.youtube.com/results");
    let s = "https://www.youtube.com/results"@;
    assert forall|i: int| 0 <= i < s.len() implies #[trigger] s[i] != '?' && s[i] != '#' by {
        assert(i == 0 || i == 1 || i == 2 || i == 3 || i == 4 || i == 5 || i == 6 || i == 7 || i == 8 || i == 9 || i == 10 || i == 11 || i == 12 || i == 13 || i == 14 || i == 15 || i == 16 || i == 17 || i == 18 || i == 19 || i == 20 || i == 21 || i == 22 || i == 23 || i == 24 || i == 25 || i == 26 || i == 27 || i == 28 || i == 29 || i == 30);
    }
}

/// What the filter of a search stands for, in the words in which it is asked for:
/// the token that YouTube takes for it, or none.
pub open spec fn token_for(time: Seq<char>, sort: Seq<char>) -> Option<Seq<char>> {
    if sort == "popularity"@ {
        if time == "today"@ {
            Some("CAMSBAgCEAE="@)
        } else if time == "week"@ {
            Some("CAMSBAgDEAE="@)
        } else if time == "month"@ {
            Some("CAMSBAgEEAE="@)
        } else if time == "year"@ {
            Some("CAMSBAgFEAE="@)
        } else {
            Some("CAM="@)
        }
    } else {
        if time == "today"@ {
            Some("EgIIAg=="@)
        } else if time == "week"@ {
            Some("EgIIAw=="@)
        } else if time == "month"@ {
            Some("EgIIBA=="@)
        } else if time == "year"@ {
            Some("EgIIBQ=="@)
        } else {
            None
        }
    }
}

proof fn lemma_filter_words()
    ensures
        ""@.len() == 0,
        "any"@.len() == 3,
        "today"@.len() == 5,
        "week"@.len() == 4 && "week"@[0] == 'w',
        "month"@.len() == 5 && "month"@[0] == 'm',
        "today"@[0] == 't',
        "year"@.len() == 4 && "year"@[0] == 'y',
        "relevance"@.len() == 9,
        "popularity"@.len() == 10,
{
    reveal_strlit("");
    reveal_strlit("any");
    reveal_strlit("today");
    reveal_strlit("week");
    reveal_strlit("month");
    reveal_strlit("year");
    reveal_strlit("relevance");
    reveal_strlit("popularity");
}

/// A search opens the page of results for the query that was given, in the tab that
/// was given, with the filter that was asked for and with none where any date and
/// the order of relevance were asked for. Any other words are refused, a date first.
pub proof fn law_search_asks_for_its_query(
    query: Seq<char>,
    time: Seq<char>,
    sort: Seq<char>,
    max: usize,
    tab: Option<i32>,
)
    ensures
        ({
            let known_time = time == "any"@ || time == ""@ || time == "today"@ || time == "week"@
                || time == "month"@ || time == "year"@;
            let known_sort = sort == "relevance"@ || sort == ""@ || sort == "popularity"@;
            let begun = youtubesearch_start(query, time, sort, max, tab);
            if !known_time {
                begun == ProgressView::<YoutubeSearch<JsonView>>::Done(
                    Err(
                        "unknown upload date filter '"@ + time
                            + "' (expected: any | today | week | month | year)"@,
                    ),
                )
            } else if !known_sort {
                begun == ProgressView::<YoutubeSearch<JsonView>>::Done(
                    Err("unknown sort filter '"@ + sort + "' (expected: relevance | popularity)"@),
                )
            } else {
                begun matches ProgressView::Ask(_, call) && {
                    &&& call.method == "navigate"@
                    &&& in_tab(call, tab)
                    &&& bears_only(call, set!["url"@, "tab_id"@])
                    &&& field(call.params, "url"@) matches Some(JsonView::Text(url)) && address_of(
                        url,
                    ) == "https://www.youtube.com/results"@ && query_pairs(url) == match token_for(
                        time,
                        sort,
                    ) {
                        Some(token) => seq![("search_query"@, query), ("sp"@, token)],
                        None => seq![("search_query"@, query)],
                    }
                }
            }
        }),
{
    lemma_param_names();
    lemma_address();
    lemma_filter_words();
    let base = "https://www.youtube.com/results"@;
    reveal_strlit("https://www.youtube.com/results");
    reveal_strlit("https://www.youtube.com/results?search_query=");
    reveal_strlit("search_query");
    reveal_strlit("&sp=");
    reveal_strlit("sp");
    assert(is_inert("search_query"@)) by {
        let s = "search_query"@;
        assert forall|i: int| 0 <= i < s.len() implies #[trigger] s[i] != '?' && s[i] != '#' && s[i]
            != '&' && s[i] != '=' && s[i] != '/' by {
            assert(i == 0 || i == 1 || i == 2 || i == 3 || i == 4 || i == 5 || i == 6 || i == 7 || i == 8 || i == 9 || i == 10 || i == 11);
        }
    }
    let page = "https://www.youtube.com/results?search_query="@ + url_encoded(query);
    assert("https://www.youtube.com/results?search_query="@ =~= base + seq!['?'] + "search_query"@
        + seq!['=']);
    assert(page =~= base + seq!['?'] + query_part("search_query"@, query));
    lemma_one_part(base, "search_query"@, query);
    if let Some(token) = token_for(time, sort) {
        lemma_two_parts(base, "search_query"@, query, "sp"@, token);
        assert("&sp="@ =~= seq!['&'] + "sp"@ + seq!['=']);
        assert(page + "&sp="@ + url_encoded(token) =~= base + seq!['?'] + (query_part(
            "search_query"@,
            query,
        ) + seq!['&'] + query_part("sp"@, token)));
    }
}

/// After the page of results has been opened, a script is run in the tab that the
/// browser has named, for as many results as are wanted and at least one. Its items
/// are the results; where it has found nothing, the reason is in the error. A command
/// that fails ends the search with its error.
#[verifier::rlimit(40)]
pub proof fn law_search_reads_its_results(
    query: Seq<char>,
    time: Seq<char>,
    sort: Seq<char>,
    max: usize,
    tab: Option<i32>,
    nav: JsonView,
    fetched: JsonView,
    error: Seq<char>,
)
    requires
        youtubesearch_start(query, time, sort, max, tab) is Ask,
    ensures
        ({
            let wanted: nat = if max == 0 {
                1
            } else {
                max as nat
            };
            let result = match field(fetched, "result"@) {
                Some(v) => v,
                None => JsonView::Null,
            };
            youtubesearch_start(query, time, sort, max, tab) matches ProgressView::Ask(opening, _)
                && (youtubesearch_next(opening, Ok(nav)) matches ProgressView::Ask(reading, call)
                && {
                &&& call.method == "run_script"@
                &&& carries(call.params, nav, "tab_id"@)
                &&& bears_text(
                    call,
                    "code"@,
                    FETCH_SCRIPT_HEAD@ + decimal(wanted) + FETCH_SCRIPT_TAIL@,
                )
                &&& bears_only(call, set!["code"@, "tab_id"@])
                &&& field(result, "ok"@) == Some(JsonView::Bool(true)) ==> (youtubesearch_next(
                    reading,
                    Ok(fetched),
                ) matches ProgressView::Done(Ok(out)) && is_search_outcome(
                    out,
                    nav,
                    result_views(
                        match field(result, "items"@) {
                            Some(JsonView::Array(items)) => items,
                            _ => Seq::empty(),
                        },
                        wanted,
                    ),
                ))
                &&& field(result, "ok"@) != Some(JsonView::Bool(true)) ==> youtubesearch_next(
                    reading,
                    Ok(fetched),
                ) == ProgressView::<YoutubeSearch<JsonView>>::Done(
                    Err(
                        "YouTube 页面数据缺失（"@ + (match field(result, "reason"@) {
                            Some(JsonView::Text(reason)) => reason,
                            _ => "unknown"@,
                        }) + "），可能是验证/consent 墙；确认浏览器登录状态正常后重试"@,
                    ),
                )
                &&& youtubesearch_next(opening, Err(error)) == ProgressView::<
                    YoutubeSearch<JsonView>,
                >::Done(Err(error))
                &&& youtubesearch_next(reading, Err(error)) == ProgressView::<
                    YoutubeSearch<JsonView>,
                >::Done(Err(error))
            })
        }),
{
    lemma_param_names();
    lemma_result_names();
}

/// Begins a search. Its outcome is `{ "tab_id": ..., "results": [...] }`.
pub fn youtubesearch(query: &str, time: &str, sort: &str, max: usize, tab: Option<i32>) -> (r:
    Progress<YoutubeSearch<Json>>)
    ensures
        r@ == youtubesearch_start(query@, time@, sort@, max, tab),
{
    let max: usize = if max == 0 {
        1
    } else {
        max
    };
    match filter_sp(time, sort) {
        Ok(token) => {
            let mut url = "https://www.youtube.com/results?search_query=".to_owned();
            url.append(urlencode(query).as_str());
            if let Some(token) = token {
                url.append("&sp=");
                url.append(urlencode(token).as_str());
            }
            Progress::Ask(YoutubeSearch::Opening { max }, navigate_call("yt1", url.as_str(), tab))
        },
        Err(e) => Progress::Done(Err(e)),
    }
}

impl YoutubeSearch<Json> {
    /// Goes on with what the last command brought.
    pub fn step(self, reply: Result<Json, String>) -> (r: Progress<YoutubeSearch<Json>>)
        ensures
            r@ == youtubesearch_next(self@, outcome_view(reply)),
    {
        let value = match reply {
            Ok(value) => value,
            Err(e) => {
                return Progress::Done(Err(e));
            },
        };
        match self {
            YoutubeSearch::Opening { max } => {
                let tab_id = value.get_or_null("tab_id");
                let call = script_call("yt2", fetch_script(max).as_str(), tab_id.clone());
                Progress::Ask(YoutubeSearch::Reading { max, tab_id }, call)
            },
            YoutubeSearch::Reading { max, tab_id } => {
                let result = value.get_or_null("result");
                if is_ok(&result) {
                    let items = result.get_items("items");
                    Progress::Done(Ok(search_outcome(tab_id, build_results(&items, max))))
                } else {
                    let mut error = "YouTube 页面数据缺失（".to_owned();
                    error.append(reason_of(&result).as_str());
                    error.append("），可能是验证/consent 墙；确认浏览器登录状态正常后重试");
                    Progress::Done(Err(error))
                }
            },
        }
    }
}

} // verus!
