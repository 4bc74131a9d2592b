//! The tools of the MCP server, as requests to the browser and as recipes.
use vstd::prelude::*;

use crate::cli::scrape_rest;
use crate::encode::query_pairs;
use crate::json::{entries_view, field, opt_json, opt_text_view, put, texts_view, Json, JsonView};
use crate::names::lemma_param_names;
use crate::params::{
    element_entries, element_in_tab, index_param, index_value, millis_param, millis_value,
    put_opt, switch_param, switch_value, tab_entries, tab_only, text_param, text_value, with,
    Params,
};
use crate::recipes::googlesearch::law_search_asks_for_its_query as google_asks_for_its_query;
use crate::recipes::googlesearch::{googlesearch, googlesearch_start, GoogleSearch};
use crate::recipes::googletrends::{
    clean_terms, dates_asked_for, googletrends, googletrends_compare, googletrends_compare_start,
    googletrends_start, law_comparison_begins, law_trend_begins, region_asked_for, GoogleTrends,
    GoogleTrendsCompare,
};
use crate::recipes::querydomains::{
    lowers_ascii, querydomains, querydomains_start, QueryDomains,
};
use crate::recipes::redditsearch::law_search_asks_for_its_query as reddit_asks_for_its_query;
use crate::recipes::redditsearch::{redditsearch, redditsearch_start, RedditSearch};
use crate::recipes::youtubeinfo::{watch_outcome, youtubeinfo, youtubeinfo_start, VideoInfo};
use crate::recipes::youtubesearch::law_search_asks_for_its_query as youtube_asks_for_its_query;
use crate::recipes::youtubesearch::{
    token_for, youtubesearch, youtubesearch_start, YoutubeSearch,
};
use crate::recipes::{bears_only, bears_text, in_tab, Call, CallView, Progress, ProgressView};
use crate::target::{law_locator_locates, locates, locator, locator_view, match_number};
use crate::text::{
    all_space, decimal, decimal_text, hex_text, is_space, join, law_numeral_injective,
    lemma_last_dash, lemma_numeral_dashless, numeral, opt_text, texts,
};
use crate::wire::text_ref;

verus! {

// ---------------------------------------------------------------------------
// Parameters
// ---------------------------------------------------------------------------

/// A tab, the active one where none is given.
#[derive(Debug)]
pub struct TabParams {
    pub tab_id: Option<i32>,
}

/// A page, and the tab for it.
#[derive(Debug)]
pub struct NavigateParams {
    pub url: String,
    pub tab_id: Option<i32>,
}

/// An element in a tab.
#[derive(Debug)]
pub struct TargetParams {
    pub target: String,
    pub by: Option<String>,
    pub index: Option<usize>,
    pub tab_id: Option<i32>,
}

/// A click on an element.
#[derive(Debug)]
pub struct ClickParams {
    pub target: String,
    pub by: Option<String>,
    pub index: Option<usize>,
    pub timeout: Option<u64>,
    pub new_tab: Option<bool>,
    pub tab_id: Option<i32>,
}

/// A click at a place; the coordinates are carried as they were read.
#[derive(Debug)]
pub struct ClickAtParams {
    pub x: Json,
    pub y: Json,
    pub tab_id: Option<i32>,
}

/// A key to press.
#[derive(Debug)]
pub struct PressKeyParams {
    pub key: String,
    pub modifiers: Option<Vec<String>>,
    pub target: Option<String>,
    pub by: Option<String>,
    pub index: Option<usize>,
    pub wait_load: Option<bool>,
    pub tab_id: Option<i32>,
}

/// A distance to scroll, carried as it was read.
#[derive(Debug)]
pub struct ScrollParams {
    pub dx: Json,
    pub dy: Json,
    pub target: Option<String>,
    pub by: Option<String>,
    pub index: Option<usize>,
    pub smooth: Option<bool>,
    pub tab_id: Option<i32>,
}

/// A value for an element.
#[derive(Debug)]
pub struct SetValueParams {
    pub target: String,
    pub value: String,
    pub by: Option<String>,
    pub index: Option<usize>,
    pub tab_id: Option<i32>,
}

/// A box to check or to clear.
#[derive(Debug)]
pub struct CheckParams {
    pub target: String,
    pub checked: Option<bool>,
    pub by: Option<String>,
    pub index: Option<usize>,
    pub tab_id: Option<i32>,
}

/// An option to select, by its value, its text or its position.
#[derive(Debug)]
pub struct SelectOptionParams {
    pub target: String,
    pub option_value: Option<String>,
    pub option_text: Option<String>,
    pub option_index: Option<usize>,
    pub by: Option<String>,
    pub index: Option<usize>,
    pub tab_id: Option<i32>,
}

/// What to read from a page, with the fields as names and selectors.
#[derive(Debug)]
pub struct ScrapeParams {
    pub item: String,
    pub fields: Option<Vec<(String, String)>>,
    pub title: Option<String>,
    pub link: Option<String>,
    pub desc: Option<String>,
    pub timeout: Option<u64>,
    pub tab_id: Option<i32>,
}

/// A script to run.
#[derive(Debug)]
pub struct RunScriptParams {
    pub code: String,
    pub tab_id: Option<i32>,
}

/// A page for a new tab.
#[derive(Debug)]
pub struct NewTabParams {
    pub url: Option<String>,
}

/// A page to turn into Markdown.
#[derive(Debug)]
pub struct GetPageMarkdownParams {
    pub url: Option<String>,
    pub selector: Option<String>,
    pub full: Option<bool>,
    pub tab_id: Option<i32>,
}

/// A search with Google.
#[derive(Debug)]
pub struct GooglesearchParams {
    pub query: String,
    pub tab_id: Option<i32>,
}

/// A search on Reddit.
#[derive(Debug)]
pub struct RedditsearchParams {
    pub query: String,
    pub tab_id: Option<i32>,
}

/// A search on YouTube.
#[derive(Debug)]
pub struct YoutubesearchParams {
    pub query: String,
    pub time: Option<String>,
    pub sort: Option<String>,
    pub max: Option<usize>,
    pub tab_id: Option<i32>,
}

/// A video on YouTube.
#[derive(Debug)]
pub struct YoutubeinfoParams {
    pub url: String,
    pub tab_id: Option<i32>,
}

/// A query for Google Trends.
#[derive(Debug)]
pub struct GoogletrendsParams {
    pub query: String,
    pub date: Option<String>,
    pub geo: Option<String>,
}

/// A comparison with Google Trends.
#[derive(Debug)]
pub struct GoogletrendsCompareParams {
    pub terms: Vec<String>,
    pub date: Option<String>,
    pub geo: Option<String>,
}

/// A query for domains.
#[derive(Debug)]
pub struct QuerydomainsParams {
    pub query: String,
    pub tlds: Option<Vec<String>>,
    pub tab_id: Option<i32>,
}

// ---------------------------------------------------------------------------
// Defaults
// ---------------------------------------------------------------------------

/// A text, or what is taken where none is given.
pub open spec fn text_or(given: Option<String>, default: Seq<char>) -> Seq<char> {
    match given {
        Some(s) => s@,
        None => default,
    }
}

fn given_text<'a>(given: &'a Option<String>, default: &'static str) -> (r: &'a str)
    ensures
        r@ == text_or(*given, default@),
{
    match given {
        Some(s) => s.as_str(),
        None => default,
    }
}

/// A switch, or what is taken where none is given.
pub open spec fn switch_or(given: Option<bool>, default: bool) -> bool {
    match given {
        Some(b) => b,
        None => default,
    }
}

fn given_switch(given: Option<bool>, default: bool) -> (r: bool)
    ensures
        r == switch_or(given, default),
{
    match given {
        Some(b) => b,
        None => default,
    }
}

/// The parameter that locates an element, by a CSS selector where nothing else is
/// said.
pub open spec fn tool_locator(value: Seq<char>, by: Option<String>, index: Option<usize>) -> JsonView {
    locator_view(text_or(by, "css"@), value, match_number(index))
}

fn tool_target(value: &str, by: &Option<String>, index: Option<usize>) -> (r: Json)
    ensures
        r@ == tool_locator(value@, *by, index),
{
    locator(given_text(by, "css"), value, index)
}

/// The parameter that locates an element, where one is named.
pub open spec fn opt_locator(
    value: Option<String>,
    by: Option<String>,
    index: Option<usize>,
) -> Option<JsonView> {
    match value {
        Some(v) => Some(tool_locator(v@, by, index)),
        None => None,
    }
}

fn opt_target(value: &Option<String>, by: &Option<String>, index: Option<usize>) -> (r: Option<Json>)
    ensures
        opt_json(r) == opt_locator(*value, *by, index),
{
    match value {
        Some(v) => Some(tool_target(v.as_str(), by, index)),
        None => None,
    }
}

/// An element and a tab.
pub open spec fn with_target_params(
    value: Seq<char>,
    by: Option<String>,
    index: Option<usize>,
    tab: Option<i32>,
) -> Params {
    element_in_tab(tool_locator(value, by, index), tab)
}

fn with_target(value: &str, by: &Option<String>, index: Option<usize>, tab: Option<i32>) -> (r: Vec<
    (String, Json),
>)
    ensures
        entries_view(r@) == with_target_params(value@, *by, index, tab),
{
    element_entries(tool_target(value, by, index), tab)
}

/// The fields of a scrape; of two with one name the later counts.
pub open spec fn named_fields(fields: Seq<(String, String)>) -> Params
    decreases fields.len(),
{
    if fields.len() == 0 {
        Map::empty()
    } else {
        named_fields(fields.drop_last()).insert(
            fields.last().0@,
            JsonView::Text(fields.last().1@),
        )
    }
}

fn fields_object(fields: &Vec<(String, String)>) -> (r: Json)
    ensures
        r@ == JsonView::Object(named_fields(fields@)),
{
    let mut entries: Vec<(String, Json)> = Vec::new();
    let mut i: usize = 0;
    assert(fields@.take(0).len() == 0);
    while i < fields.len()
        invariant
            i <= fields@.len(),
            entries_view(entries@) == named_fields(fields@.take(i as int)),
        decreases fields.len() - i,
    {
        assert(fields@.take(i + 1).drop_last() =~= fields@.take(i as int));
        put(&mut entries, fields[i].0.as_str(), Json::text(fields[i].1.as_str()));
        i += 1;
    }
    assert(fields@.take(fields@.len() as int) =~= fields@);
    Json::Object(entries)
}

/// A request with a label, a method and parameters.
pub open spec fn tool_call(id: Seq<char>, method: Seq<char>, params: Params) -> CallView {
    CallView { id, method, params: JsonView::Object(params) }
}

fn tool(id: &'static str, method: &'static str, entries: Vec<(String, Json)>) -> (r: Call)
    ensures
        r@ == tool_call(id@, method@, entries_view(entries@)),
{
    Call { id, method, params: Json::Object(entries) }
}

/// Whether a request works on the element that is named, found by a CSS selector
/// where nothing else is said.
pub open spec fn works_on(
    call: CallView,
    value: Seq<char>,
    by: Option<String>,
    index: Option<usize>,
) -> bool {
    field(call.params, "target"@) matches Some(target) && locates(
        target,
        match by {
            Some(by) => by@,
            None => "css"@,
        },
        value,
        match index {
            Some(i) => Some(i as int),
            None => None,
        },
    )
}

/// A request works on the element that its locator finds.
proof fn lemma_works_on(value: Seq<char>, by: Option<String>, index: Option<usize>)
    ensures
        locates(
            tool_locator(value, by, index),
            match by {
                Some(by) => by@,
                None => "css"@,
            },
            value,
            match index {
                Some(i) => Some(i as int),
                None => None,
            },
        ),
{
    law_locator_locates(text_or(by, "css"@), value, match_number(index));
}

/// Whether a text stands under a name where it is given, and nothing where it is not.
pub open spec fn bears_given(call: CallView, name: Seq<char>, given: Option<String>) -> bool {
    match given {
        Some(s) => bears_text(call, name, s@),
        None => field(call.params, name) is None,
    }
}

/// Whether a switch stands under a name where it is on, and nothing where it is not.
pub open spec fn bears_switch(call: CallView, name: Seq<char>, given: Option<bool>) -> bool {
    field(call.params, name) == if given == Some(true) {
        Some(JsonView::Bool(true))
    } else {
        None
    }
}

/// Whether a number stands under a name where it is given, and nothing where it is
/// not.
pub open spec fn bears_number(call: CallView, name: Seq<char>, given: Option<int>) -> bool {
    field(call.params, name) == match given {
        Some(n) => Some(JsonView::Int(n)),
        None => None,
    }
}

/// Of the fields of a scrape every name stands with the selector that was given for it
/// last, and no other name.
pub proof fn law_named_fields(fields: Seq<(String, String)>)
    ensures
        forall|name: Seq<char>| #[trigger]
            named_fields(fields).contains_key(name) <==> exists|i: int|
                0 <= i < fields.len() && (#[trigger] fields[i]).0@ == name,
        forall|i: int|
            0 <= i < fields.len() && (forall|j: int|
                i < j < fields.len() ==> fields[j].0@ != fields[i].0@) ==> named_fields(
                fields,
            )[(#[trigger] fields[i]).0@] == JsonView::Text(fields[i].1@),
    decreases fields.len(),
{
    if fields.len() > 0 {
        let front = fields.drop_last();
        let n = front.len() as int;
        law_named_fields(front);
        let now = named_fields(fields);
        assert forall|name: Seq<char>| #[trigger] now.contains_key(name) <==> exists|i: int|
            0 <= i < fields.len() && (#[trigger] fields[i]).0@ == name by {
            if named_fields(front).contains_key(name) {
                let i = choose|i: int| 0 <= i < front.len() && (#[trigger] front[i]).0@ == name;
                assert(fields[i].0@ == name);
            }
            if name == fields[n].0@ {
                assert(fields[n].0@ == name);
            }
            if exists|i: int| 0 <= i < fields.len() && (#[trigger] fields[i]).0@ == name {
                let i = choose|i: int| 0 <= i < fields.len() && (#[trigger] fields[i]).0@ == name;
                if i < n {
                    assert(front[i].0@ == name);
                }
            }
        }
        assert forall|i: int|
            0 <= i < fields.len() && (forall|j: int|
                i < j < fields.len() ==> fields[j].0@ != fields[i].0@) implies now[(
        #[trigger] fields[i]).0@] == JsonView::Text(fields[i].1@) by {
            if i < n {
                assert(fields[n].0@ != fields[i].0@);
                assert(front[i] == fields[i]);
                assert forall|j: int| i < j < front.len() implies front[j].0@ != front[i].0@ by {
                    assert(fields[j].0@ != fields[i].0@);
                }
                assert(named_fields(front)[front[i].0@] == JsonView::Text(front[i].1@));
            }
        }
    }
}

// ---------------------------------------------------------------------------
// The identity of a server
// ---------------------------------------------------------------------------

/// The identity under which an MCP server works: its process, and the moment it
/// was started.
pub open spec fn mcp_identity(pid: u32, started_nanos: u128) -> Seq<char> {
    "mcp-"@ + decimal(pid as nat) + "-"@ + numeral(started_nanos as nat, 16)
}

/// The identity under which an MCP server works.
pub fn mcp_client_id(pid: u32, started_nanos: u128) -> (r: String)
    ensures
        r@ == mcp_identity(pid, started_nanos),
{
    let mut out = "mcp-".to_owned();
    out.append(decimal_text(pid as u64).as_str());
    out.append("-");
    out.append(hex_text(started_nanos).as_str());
    out
}

/// Servers of different processes, or started at different moments, have
/// different identities.
pub proof fn law_identities_differ(pid_a: u32, started_a: u128, pid_b: u32, started_b: u128)
    requires
        mcp_identity(pid_a, started_a) == mcp_identity(pid_b, started_b),
    ensures
        pid_a == pid_b,
        started_a == started_b,
{
    reveal_strlit("-");
    reveal_strlit("mcp-");
    reveal_strlit("mcp");
    assert("-"@ =~= seq!['-']);
    assert("mcp-"@ =~= "mcp"@ + seq!['-']);
    lemma_numeral_dashless(pid_a as nat, 10);
    lemma_numeral_dashless(pid_b as nat, 10);
    lemma_numeral_dashless(started_a as nat, 16);
    lemma_numeral_dashless(started_b as nat, 16);
    lemma_last_dash(
        "mcp-"@ + decimal(pid_a as nat),
        numeral(started_a as nat, 16),
        "mcp-"@ + decimal(pid_b as nat),
        numeral(started_b as nat, 16),
    );
    lemma_last_dash("mcp"@, decimal(pid_a as nat), "mcp"@, decimal(pid_b as nat));
    law_numeral_injective(pid_a as nat, pid_b as nat, 10);
    law_numeral_injective(started_a as nat, started_b as nat, 16);
}

// ---------------------------------------------------------------------------
// Tools
// ---------------------------------------------------------------------------

/// The dates and the region that a tool takes where none are given are those that a
/// reading takes where nothing is given.
proof fn lemma_usual_trend()
    ensures
        dates_asked_for("today 1-m"@) == dates_asked_for(Seq::empty()),
        region_asked_for("Worldwide"@) == region_asked_for(Seq::empty()),
{
    reveal_strlit("today 1-m");
    reveal_strlit("Worldwide");
    assert(!is_space("today 1-m"@[0]) && !is_space("Worldwide"@[0]));
    assert(!all_space("today 1-m"@) && !all_space("Worldwide"@));
}

/// An MCP server: it works for one client of the hub.
#[derive(Debug)]
pub struct BridgeMcp {
    client_id: String,
}

impl BridgeMcp {
    /// The identity under which the server works.
    pub closed spec fn identity(&self) -> Seq<char> {
        self.client_id@
    }

    pub fn new(client_id: String) -> (r: Self)
        ensures
            r.identity() == client_id@,
    {
        BridgeMcp { client_id }
    }

    pub fn list_tabs(&self) -> (r: Call)
        ensures
            r@ == tool_call("lt"@, "list_tabs"@, Map::empty()),
            r@.method == "list_tabs"@,
            bears_only(r@, set![]),
    {
        proof {
            lemma_param_names();
        }
        tool("lt", "list_tabs", Vec::new())
    }

    pub fn close_tab(&self, p: TabParams) -> (r: Call)
        ensures
            r@ == tool_call("ct"@, "close_tab"@, tab_only(p.tab_id)),
            r@.method == "close_tab"@,
            in_tab(r@, p.tab_id),
            bears_only(r@, set!["tab_id"@]),
    {
        proof {
            lemma_param_names();
        }
        tool("ct", "close_tab", tab_entries(p.tab_id))
    }

    /// Closes the tabs that were opened for this server, and no others.
    pub fn close_auto_tabs(&self) -> (r: Call)
        ensures
            r@ == tool_call(
                "cat"@,
                "close_auto_tabs"@,
                Map::empty().insert("owner"@, JsonView::Text(self.identity())),
            ),
            r@.method == "close_auto_tabs"@,
            bears_text(r@, "owner"@, self.identity()),
            bears_only(r@, set!["owner"@]),
    {
        proof {
            lemma_param_names();
        }
        let mut entries: Vec<(String, Json)> = Vec::new();
        put(&mut entries, "owner", Json::text(self.client_id.as_str()));
        tool("cat", "close_auto_tabs", entries)
    }

    pub fn new_tab(&self, p: NewTabParams) -> (r: Call)
        ensures
            r@ == tool_call(
                "nt"@,
                "new_tab"@,
                Map::empty().insert("url"@, opt_text_view(opt_text(p.url))),
            ),
            r@.method == "new_tab"@,
            p.url matches Some(url) ==> bears_text(r@, "url"@, url@),
            p.url is None ==> field(r@.params, "url"@) == Some(JsonView::Null),
            bears_only(r@, set!["url"@]),
    {
        proof {
            lemma_param_names();
        }
        let mut entries: Vec<(String, Json)> = Vec::new();
        put(&mut entries, "url", Json::opt_text(text_ref(&p.url)));
        tool("nt", "new_tab", entries)
    }

    pub fn activate_tab(&self, p: TabParams) -> (r: Call)
        ensures
            r@ == tool_call("at"@, "activate_tab"@, tab_only(p.tab_id)),
            r@.method == "activate_tab"@,
            in_tab(r@, p.tab_id),
            bears_only(r@, set!["tab_id"@]),
    {
        proof {
            lemma_param_names();
        }
        tool("at", "activate_tab", tab_entries(p.tab_id))
    }

    pub fn navigate(&self, p: NavigateParams) -> (r: Call)
        ensures
            r@ == tool_call(
                "nav"@,
                "navigate"@,
                tab_only(p.tab_id).insert("url"@, JsonView::Text(p.url@)),
            ),
            r@.method == "navigate"@,
            bears_text(r@, "url"@, p.url@),
            in_tab(r@, p.tab_id),
            bears_only(r@, set!["url"@, "tab_id"@]),
    {
        proof {
            lemma_param_names();
        }
        let mut entries = tab_entries(p.tab_id);
        put(&mut entries, "url", Json::Text(p.url));
        tool("nav", "navigate", entries)
    }

    pub fn click(&self, p: ClickParams) -> (r: Call)
        ensures
            r@ == tool_call(
                "clk"@,
                "click"@,
                with(
                    with(
                        with_target_params(p.target@, p.by, p.index, p.tab_id),
                        "timeout"@,
                        millis_param(p.timeout),
                    ),
                    "new_tab"@,
                    switch_param(switch_or(p.new_tab, false)),
                ),
            ),
            r@.method == "click"@,
            works_on(r@, p.target@, p.by, p.index),
            in_tab(r@, p.tab_id),
            bears_number(
                r@,
                "timeout"@,
                match p.timeout {
                    Some(t) => Some(t as int),
                    None => None,
                },
            ),
            bears_switch(r@, "new_tab"@, p.new_tab),
            bears_only(r@, set!["target"@, "timeout"@, "new_tab"@, "tab_id"@]),
    {
        proof {
            lemma_param_names();
            lemma_works_on(p.target@, p.by, p.index);
        }
        let mut entries = with_target(p.target.as_str(), &p.by, p.index, p.tab_id);
        put_opt(&mut entries, "timeout", millis_value(p.timeout));
        put_opt(&mut entries, "new_tab", switch_value(given_switch(p.new_tab, false)));
        tool("clk", "click", entries)
    }

    pub fn click_at(&self, p: ClickAtParams) -> (r: Call)
        ensures
            r@ == tool_call(
                "cxy"@,
                "click_at"@,
                tab_only(p.tab_id).insert("x"@, p.x@).insert("y"@, p.y@),
            ),
            r@.method == "click_at"@,
            in_tab(r@, p.tab_id),
            field(r@.params, "x"@) == Some(p.x@),
            field(r@.params, "y"@) == Some(p.y@),
            bears_only(r@, set!["x"@, "y"@, "tab_id"@]),
    {
        proof {
            lemma_param_names();
        }
        let mut entries = tab_entries(p.tab_id);
        put(&mut entries, "x", p.x);
        put(&mut entries, "y", p.y);
        tool("cxy", "click_at", entries)
    }

    pub fn press_key(&self, p: PressKeyParams) -> (r: Call)
        ensures
            r@ == tool_call(
                "pk"@,
                "press_key"@,
                with(
                    with(
                        with(
                            tab_only(p.tab_id).insert("key"@, JsonView::Text(p.key@)),
                            "modifiers"@,
                            match p.modifiers {
                                Some(list) => Some(texts_view(texts(list@))),
                                None => None,
                            },
                        ),
                        "wait_load"@,
                        switch_param(switch_or(p.wait_load, false)),
                    ),
                    "target"@,
                    opt_locator(p.target, p.by, p.index),
                ),
            ),
            r@.method == "press_key"@,
            in_tab(r@, p.tab_id),
            bears_text(r@, "key"@, p.key@),
            p.target matches Some(value) ==> works_on(r@, value@, p.by, p.index),
            p.target is None ==> field(r@.params, "target"@) is None,
            p.modifiers matches Some(list) ==> (field(r@.params, "modifiers"@) matches Some(
                JsonView::Array(held),
            ) && held.len() == list@.len() && forall|i: int|
                0 <= i < held.len() ==> #[trigger] held[i] == JsonView::Text(list@[i]@)),
            p.modifiers is None ==> field(r@.params, "modifiers"@) is None,
            bears_switch(r@, "wait_load"@, p.wait_load),
            bears_only(r@, set!["key"@, "modifiers"@, "wait_load"@, "target"@, "tab_id"@]),
    {
        proof {
            lemma_param_names();
            if p.target is Some {
                lemma_works_on(p.target->0@, p.by, p.index);
            }
        }
        let target = opt_target(&p.target, &p.by, p.index);
        let mut entries = tab_entries(p.tab_id);
        put(&mut entries, "key", Json::Text(p.key));
        if let Some(list) = p.modifiers {
            put(&mut entries, "modifiers", Json::text_array(&list));
        }
        put_opt(&mut entries, "wait_load", switch_value(given_switch(p.wait_load, false)));
        put_opt(&mut entries, "target", target);
        tool("pk", "press_key", entries)
    }

    pub fn scroll(&self, p: ScrollParams) -> (r: Call)
        ensures
            r@ == tool_call(
                "scr"@,
                "scroll"@,
                with(
                    tab_only(p.tab_id).insert("dx"@, p.dx@).insert("dy"@, p.dy@).insert(
                        "smooth"@,
                        JsonView::Bool(switch_or(p.smooth, false)),
                    ),
                    "target"@,
                    opt_locator(p.target, p.by, p.index),
                ),
            ),
            r@.method == "scroll"@,
            in_tab(r@, p.tab_id),
            p.target matches Some(value) ==> works_on(r@, value@, p.by, p.index),
            p.target is None ==> field(r@.params, "target"@) is None,
            field(r@.params, "dx"@) == Some(p.dx@),
            field(r@.params, "dy"@) == Some(p.dy@),
            field(r@.params, "smooth"@) == Some(JsonView::Bool(p.smooth == Some(true))),
            bears_only(r@, set!["dx"@, "dy"@, "smooth"@, "target"@, "tab_id"@]),
    {
        proof {
            lemma_param_names();
            if p.target is Some {
                lemma_works_on(p.target->0@, p.by, p.index);
            }
        }
        let target = opt_target(&p.target, &p.by, p.index);
        let mut entries = tab_entries(p.tab_id);
        put(&mut entries, "dx", p.dx);
        put(&mut entries, "dy", p.dy);
        put(&mut entries, "smooth", Json::Bool(given_switch(p.smooth, false)));
        put_opt(&mut entries, "target", target);
        tool("scr", "scroll", entries)
    }

    pub fn set_value(&self, p: SetValueParams) -> (r: Call)
        ensures
            r@ == tool_call(
                "sv"@,
                "set_value"@,
                with_target_params(p.target@, p.by, p.index, p.tab_id).insert(
                    "value"@,
                    JsonView::Text(p.value@),
                ),
            ),
            r@.method == "set_value"@,
            works_on(r@, p.target@, p.by, p.index),
            in_tab(r@, p.tab_id),
            bears_text(r@, "value"@, p.value@),
            bears_only(r@, set!["target"@, "value"@, "tab_id"@]),
    {
        proof {
            lemma_param_names();
            lemma_works_on(p.target@, p.by, p.index);
        }
        let mut entries = with_target(p.target.as_str(), &p.by, p.index, p.tab_id);
        put(&mut entries, "value", Json::Text(p.value));
        tool("sv", "set_value", entries)
    }

    pub fn check(&self, p: CheckParams) -> (r: Call)
        ensures
            r@ == tool_call(
                "chk"@,
                "check"@,
                with_target_params(p.target@, p.by, p.index, p.tab_id).insert(
                    "checked"@,
                    JsonView::Bool(switch_or(p.checked, true)),
                ),
            ),
            r@.method == "check"@,
            works_on(r@, p.target@, p.by, p.index),
            in_tab(r@, p.tab_id),
            field(r@.params, "checked"@) == Some(JsonView::Bool(p.checked != Some(false))),
            bears_only(r@, set!["target"@, "checked"@, "tab_id"@]),
    {
        proof {
            lemma_param_names();
            lemma_works_on(p.target@, p.by, p.index);
        }
        let mut entries = with_target(p.target.as_str(), &p.by, p.index, p.tab_id);
        put(&mut entries, "checked", Json::Bool(given_switch(p.checked, true)));
        tool("chk", "check", entries)
    }

    pub fn select_option(&self, p: SelectOptionParams) -> (r: Call)
        ensures
            r@ == tool_call(
                "so"@,
                "select_option"@,
                with(
                    with(
                        with(
                            with_target_params(p.target@, p.by, p.index, p.tab_id),
                            "value"@,
                            text_param(p.option_value),
                        ),
                        "text"@,
                        text_param(p.option_text),
                    ),
                    "index"@,
                    index_param(p.option_index),
                ),
            ),
            r@.method == "select_option"@,
            works_on(r@, p.target@, p.by, p.index),
            in_tab(r@, p.tab_id),
            bears_given(r@, "value"@, p.option_value),
            bears_given(r@, "text"@, p.option_text),
            bears_number(
                r@,
                "index"@,
                match p.option_index {
                    Some(i) => Some(i as int),
                    None => None,
                },
            ),
            bears_only(r@, set!["target"@, "value"@, "text"@, "index"@, "tab_id"@]),
    {
        proof {
            lemma_param_names();
            lemma_works_on(p.target@, p.by, p.index);
        }
        let mut entries = with_target(p.target.as_str(), &p.by, p.index, p.tab_id);
        put_opt(&mut entries, "value", text_value(p.option_value));
        put_opt(&mut entries, "text", text_value(p.option_text));
        put_opt(&mut entries, "index", index_value(p.option_index));
        tool("so", "select_option", entries)
    }

    pub fn clear(&self, p: TargetParams) -> (r: Call)
        ensures
            r@ == tool_call(
                "clr"@,
                "clear"@,
                with_target_params(p.target@, p.by, p.index, p.tab_id),
            ),
            r@.method == "clear"@,
            works_on(r@, p.target@, p.by, p.index),
            in_tab(r@, p.tab_id),
            bears_only(r@, set!["target"@, "tab_id"@]),
    {
        proof {
            lemma_param_names();
            lemma_works_on(p.target@, p.by, p.index);
        }
        tool("clr", "clear", with_target(p.target.as_str(), &p.by, p.index, p.tab_id))
    }

    pub fn get_value(&self, p: TargetParams) -> (r: Call)
        ensures
            r@ == tool_call(
                "gv"@,
                "get_value"@,
                with_target_params(p.target@, p.by, p.index, p.tab_id),
            ),
            r@.method == "get_value"@,
            works_on(r@, p.target@, p.by, p.index),
            in_tab(r@, p.tab_id),
            bears_only(r@, set!["target"@, "tab_id"@]),
    {
        proof {
            lemma_param_names();
            lemma_works_on(p.target@, p.by, p.index);
        }
        tool("gv", "get_value", with_target(p.target.as_str(), &p.by, p.index, p.tab_id))
    }

    pub fn scrape(&self, p: ScrapeParams) -> (r: Call)
        ensures
            r@ == tool_call(
                "scp"@,
                "scrape"@,
                scrape_rest(
                    with(
                        tab_only(p.tab_id).insert("item"@, JsonView::Text(p.item@)),
                        "fields"@,
                        match p.fields {
                            Some(list) => Some(JsonView::Object(named_fields(list@))),
                            None => None,
                        },
                    ),
                    p.title,
                    p.link,
                    p.desc,
                    p.timeout,
                ),
            ),
            r@.method == "scrape"@,
            in_tab(r@, p.tab_id),
            bears_text(r@, "item"@, p.item@),
            p.fields matches Some(list) ==> field(r@.params, "fields"@) == Some(
                JsonView::Object(named_fields(list@)),
            ),
            p.fields is None ==> field(r@.params, "fields"@) is None,
            bears_given(r@, "title"@, p.title),
            bears_given(r@, "link"@, p.link),
            bears_given(r@, "desc"@, p.desc),
            bears_number(
                r@,
                "timeout"@,
                match p.timeout {
                    Some(t) => Some(t as int),
                    None => None,
                },
            ),
            bears_only(r@, set!["item"@, "fields"@, "title"@, "link"@, "desc"@, "timeout"@, "tab_id"@]),
    {
        proof {
            lemma_param_names();
        }
        let mut entries = tab_entries(p.tab_id);
        put(&mut entries, "item", Json::Text(p.item));
        if let Some(list) = p.fields {
            put(&mut entries, "fields", fields_object(&list));
        }
        put_opt(&mut entries, "title", text_value(p.title));
        put_opt(&mut entries, "link", text_value(p.link));
        put_opt(&mut entries, "desc", text_value(p.desc));
        put_opt(&mut entries, "timeout", millis_value(p.timeout));
        tool("scp", "scrape", entries)
    }

    pub fn run_script(&self, p: RunScriptParams) -> (r: Call)
        ensures
            r@ == tool_call(
                "rs"@,
                "run_script"@,
                tab_only(p.tab_id).insert("code"@, JsonView::Text(p.code@)),
            ),
            r@.method == "run_script"@,
            bears_text(r@, "code"@, p.code@),
            in_tab(r@, p.tab_id),
            bears_only(r@, set!["code"@, "tab_id"@]),
    {
        proof {
            lemma_param_names();
        }
        let mut entries = tab_entries(p.tab_id);
        put(&mut entries, "code", Json::Text(p.code));
        tool("rs", "run_script", entries)
    }

    pub fn get_page_content(&self, p: TabParams) -> (r: Call)
        ensures
            r@ == tool_call("gpc"@, "get_page_content"@, tab_only(p.tab_id)),
            r@.method == "get_page_content"@,
            in_tab(r@, p.tab_id),
            bears_only(r@, set!["tab_id"@]),
    {
        proof {
            lemma_param_names();
        }
        tool("gpc", "get_page_content", tab_entries(p.tab_id))
    }

    pub fn get_page_markdown(&self, p: GetPageMarkdownParams) -> (r: Call)
        ensures
            r@ == tool_call(
                "gpm"@,
                "get_page_markdown"@,
                with(
                    with(
                        with(tab_only(p.tab_id), "url"@, text_param(p.url)),
                        "selector"@,
                        text_param(p.selector),
                    ),
                    "full"@,
                    switch_param(switch_or(p.full, false)),
                ),
            ),
            r@.method == "get_page_markdown"@,
            in_tab(r@, p.tab_id),
            bears_given(r@, "url"@, p.url),
            bears_given(r@, "selector"@, p.selector),
            bears_switch(r@, "full"@, p.full),
            bears_only(r@, set!["url"@, "selector"@, "full"@, "tab_id"@]),
    {
        proof {
            lemma_param_names();
        }
        let mut entries = tab_entries(p.tab_id);
        put_opt(&mut entries, "url", text_value(p.url));
        put_opt(&mut entries, "selector", text_value(p.selector));
        put_opt(&mut entries, "full", switch_value(given_switch(p.full, false)));
        tool("gpm", "get_page_markdown", entries)
    }

    pub fn googlesearch_tool(&self, p: GooglesearchParams) -> (r: Progress<GoogleSearch<Json>>)
        ensures
            r@ == googlesearch_start(p.query@, p.tab_id),
            r@ matches ProgressView::Ask(_, call) && in_tab(call, p.tab_id) && (field(
                call.params,
                "url"@,
            ) matches Some(JsonView::Text(url)) && query_pairs(url) == seq![("q"@, p.query@)]),
    {
        proof {
            google_asks_for_its_query(p.query@, p.tab_id);
        }
        googlesearch(p.query.as_str(), p.tab_id)
    }

    pub fn redditsearch_tool(&self, p: RedditsearchParams) -> (r: Progress<RedditSearch<Json>>)
        ensures
            r@ == redditsearch_start(p.query@, p.tab_id),
            r@ matches ProgressView::Ask(_, call) && in_tab(call, p.tab_id) && (field(
                call.params,
                "url"@,
            ) matches Some(JsonView::Text(url)) && query_pairs(url) == seq![("q"@, p.query@)]),
    {
        proof {
            reddit_asks_for_its_query(p.query@, p.tab_id);
        }
        redditsearch(p.query.as_str(), p.tab_id)
    }

    /// Without a date, an order or a number: any date, by relevance, five results.
    pub fn youtubesearch_tool(&self, p: YoutubesearchParams) -> (r: Progress<YoutubeSearch<Json>>)
        ensures
            r@ == youtubesearch_start(
                p.query@,
                text_or(p.time, "any"@),
                text_or(p.sort, "relevance"@),
                match p.max {
                    Some(max) => max,
                    None => 5,
                },
                p.tab_id,
            ),
            ({
                let time = match p.time {
                    Some(time) => time@,
                    None => "any"@,
                };
                let sort = match p.sort {
                    Some(sort) => sort@,
                    None => "relevance"@,
                };
                r@ matches ProgressView::Ask(state, call) ==> {
                    &&& in_tab(call, p.tab_id)
                    &&& field(call.params, "url"@) matches Some(JsonView::Text(url)) && query_pairs(
                        url,
                    ) == match token_for(time, sort) {
                        Some(token) => seq![("search_query"@, p.query@), ("sp"@, token)],
                        None => seq![("search_query"@, p.query@)],
                    }
                    &&& state matches YoutubeSearch::Opening { max } && max == match p.max {
                        Some(n) => if n > 0 {
                            n
                        } else {
                            1
                        },
                        None => 5,
                    }
                }
            }),
    {
        proof {
            youtube_asks_for_its_query(
                p.query@,
                text_or(p.time, "any"@),
                text_or(p.sort, "relevance"@),
                match p.max {
                    Some(max) => max,
                    None => 5,
                },
                p.tab_id,
            );
        }
        let max: usize = match p.max {
            Some(max) => max,
            None => 5,
        };
        youtubesearch(
            p.query.as_str(),
            given_text(&p.time, "any"),
            given_text(&p.sort, "relevance"),
            max,
            p.tab_id,
        )
    }

    pub fn youtubeinfo_tool(&self, p: YoutubeinfoParams) -> (r: Progress<VideoInfo<Json>>)
        ensures
            r@ == youtubeinfo_start(p.url@, p.tab_id),
            watch_outcome(p.url@) matches Ok(page) ==> (r@ matches ProgressView::Ask(_, call)
                && in_tab(call, p.tab_id) && bears_text(call, "url"@, page)),
    {
        proof {
            lemma_param_names();
        }
        youtubeinfo(p.url.as_str(), p.tab_id)
    }

    /// Without dates or a region: the last month, worldwide.
    pub fn googletrends_tool(&self, p: GoogletrendsParams) -> (r: Progress<GoogleTrends>)
        ensures
            r@ == googletrends_start(
                p.query@,
                text_or(p.date, "today 1-m"@),
                text_or(p.geo, "Worldwide"@),
            ),
            r@ matches ProgressView::Ask(_, call) && (field(call.params, "url"@) matches Some(
                JsonView::Text(url),
            ) && query_pairs(url) == seq![
                ("q"@, p.query@),
                (
                    "date"@,
                    dates_asked_for(
                        match p.date {
                            Some(date) => date@,
                            None => Seq::empty(),
                        },
                    ),
                ),
                (
                    "geo"@,
                    region_asked_for(
                        match p.geo {
                            Some(geo) => geo@,
                            None => Seq::empty(),
                        },
                    ),
                ),
            ]),
    {
        proof {
            law_trend_begins(
                p.query@,
                text_or(p.date, "today 1-m"@),
                text_or(p.geo, "Worldwide"@),
            );
            lemma_usual_trend();
        }
        googletrends(
            p.query.as_str(),
            given_text(&p.date, "today 1-m"),
            given_text(&p.geo, "Worldwide"),
        )
    }

    /// Without dates or a region: the last month, worldwide.
    pub fn googletrends_compare_tool(&self, p: GoogletrendsCompareParams) -> (r: Progress<
        GoogleTrendsCompare,
    >)
        ensures
            r@ == googletrends_compare_start(
                texts(p.terms@),
                text_or(p.date, "today 1-m"@),
                text_or(p.geo, "Worldwide"@),
            ),
            texts(p.terms@).len() > 0 ==> (r@ matches ProgressView::Ask(_, call) && (field(call.params, "url"@) matches Some(
                JsonView::Text(url),
            ) && query_pairs(url) == seq![
                ("q"@, join(clean_terms(texts(p.terms@)), seq![','])),
                (
                    "date"@,
                    dates_asked_for(
                        match p.date {
                            Some(date) => date@,
                            None => Seq::empty(),
                        },
                    ),
                ),
                (
                    "geo"@,
                    region_asked_for(
                        match p.geo {
                            Some(geo) => geo@,
                            None => Seq::empty(),
                        },
                    ),
                ),
            ])),
    {
        proof {
            if texts(p.terms@).len() > 0 {
                law_comparison_begins(
                    texts(p.terms@),
                    text_or(p.date, "today 1-m"@),
                    text_or(p.geo, "Worldwide"@),
                );
            }
            lemma_usual_trend();
        }
        let date = given_text(&p.date, "today 1-m").to_owned();
        let geo = given_text(&p.geo, "Worldwide").to_owned();
        googletrends_compare(p.terms, date.as_str(), geo.as_str())
    }

    /// Without suffixes: those of the page.
    pub fn querydomains_tool(&self, p: QuerydomainsParams) -> (r: Progress<QueryDomains>)
        ensures
            r@ == querydomains_start(
                p.query@,
                match p.tlds {
                    Some(list) => texts(list@),
                    None => Seq::empty(),
                },
                p.tab_id,
            ),
            p.tlds matches Some(list) ==> lowers_ascii(texts(list@)),
            r@ matches ProgressView::Ask(_, call) ==> in_tab(call, p.tab_id),
    {
        proof {
            lemma_param_names();
        }
        match p.tlds {
            Some(list) => querydomains(p.query.as_str(), &list, p.tab_id),
            None => {
                let none: Vec<String> = Vec::new();
                assert(texts(none@) =~= Seq::empty());
                querydomains(p.query.as_str(), &none, p.tab_id)
            },
        }
    }
}

} // verus!
