use browser_bridge::json::Json;
use browser_bridge::recipes::googlesearch::googlesearch;
use browser_bridge::recipes::googletrends::{
    compare_script, googletrends, googletrends_compare, split_terms, trends_script,
    COMPARE_SCRIPT_HEAD, COMPARE_SCRIPT_TAIL, NO_TABLES_NOTE, TRENDS_SCRIPT_HEAD,
    TRENDS_SCRIPT_TAIL,
};
use browser_bridge::recipes::querydomains::{
    begin_query, default_tlds, extract_script, is_price_badge, querydomains, EXTRACT_SCRIPT_HEAD,
    EXTRACT_SCRIPT_TAIL, WAIT_SCRIPT,
};
use browser_bridge::recipes::redditsearch::redditsearch;
use browser_bridge::recipes::youtubeinfo::{youtubeinfo, EXTRACT_SCRIPT};
use browser_bridge::recipes::youtuberinfo::youtuberinfo;
use browser_bridge::recipes::youtubesearch::{build_results, filter_sp, youtubesearch};
use browser_bridge::recipes::{Call, Progress};

fn value(text: &str) -> serde_json::Value {
    serde_json::from_str(text).unwrap()
}

fn json(text: &str) -> Json {
    Json::parse(text).unwrap()
}

fn ask<S>(p: Progress<S>, id: &str, method: &str) -> (S, Call) {
    match p {
        Progress::Ask(state, call) => {
            assert_eq!(call.id, id);
            assert_eq!(call.method, method);
            (state, call)
        }
        Progress::Done(outcome) => panic!("{outcome:?}"),
    }
}

fn done<S>(p: Progress<S>) -> Result<serde_json::Value, String> {
    match p {
        Progress::Ask(_, call) => panic!("{call:?}"),
        Progress::Done(outcome) => outcome.map(|j| j.to_value()),
    }
}

#[test]
fn google_search() {
    let (state, call) = ask(googlesearch("Haze Seas", Some(7)), "gs1", "navigate");
    assert_eq!(
        call.params.to_value(),
        value(r#"{"url":"https://www.google.com/search?q=Haze+Seas","tab_id":7}"#)
    );
    let (state, call) = ask(state.step(Ok(json(r#"{"tab_id":9}"#))), "gs2", "scrape");
    assert_eq!(
        call.params.to_value(),
        value(
            r##"{"item":"#rso > div","fields":{"title":"h3","url":"a@href",
            "description":"div[data-sncf='1'] > div"},"timeout":10000,"tab_id":7}"##
        )
    );
    let scraped = json(
        r#"{"items":[{"title":" ","url":"u0"},{"title":"A","url":"u1","description":"d"},
        {"url":"u2"},{"title":"B"}]}"#,
    );
    assert_eq!(
        done(state.step(Ok(scraped))).unwrap(),
        value(
            r##"{"tab_id":9,"results":[
            {"title":"A","description":"d","url":"u1",
             "target":{"by":"css","value":"#rso a:has(h3)","index":0}},
            {"title":"B","description":null,"url":null,
             "target":{"by":"css","value":"#rso a:has(h3)","index":1}}]}"##
        )
    );
}

#[test]
fn search_stops_at_an_error() {
    let (state, _) = ask(googlesearch("q", None), "gs1", "navigate");
    assert_eq!(done(state.step(Err("no tab".to_string()))).unwrap_err(), "no tab");
}

#[test]
fn reddit_search() {
    let (state, call) = ask(redditsearch("rust lang", None), "rs1", "navigate");
    assert_eq!(
        call.params.to_value(),
        value(r#"{"url":"https://www.reddit.com/search/?q=rust+lang","tab_id":null}"#)
    );
    let (state, call) = ask(state.step(Ok(json("{}"))), "rs2", "scrape");
    assert_eq!(call.params.get_str("item"), Some(
        "[data-testid=\"search-post-with-content-preview\"], [data-testid=\"search-sdui-post\"]"
    ));
    assert_eq!(
        call.params.get("fields").unwrap().to_value(),
        value(
            r#"{"title":"a[data-testid=\"post-title\"]",
            "url":"a[data-testid=\"post-title-text\"]@href",
            "description":"div[data-testid=\"sdui-post-unit\"] > search-telemetry-tracker > a",
            "published":"faceplate-timeago","published_at":"faceplate-timeago@ts",
            "votes":"[data-testid=\"search-counter-row\"] > span:first-of-type faceplate-number@number",
            "comments":"[data-testid=\"search-counter-row\"] > span:last-of-type faceplate-number@number"}"#
        )
    );
    let scraped = json(
        r#"{"items":[{"title":""},
        {"title":"A","url":"u","description":"d","published":"1mo ago",
         "published_at":"2026-01-02T03:04:05Z","votes":" 1234 ","comments":7},
        {"title":"B","votes":"1.2k","comments":1.5}]}"#,
    );
    assert_eq!(
        done(state.step(Ok(scraped))).unwrap(),
        value(
            r#"{"tab_id":null,"results":[
            {"title":"A","description":"d","published":"1mo ago",
             "published_at":"2026-01-02T03:04:05Z","votes":1234,"comments":7,"url":"u",
             "target":{"by":"css","value":"a[data-testid=\"post-title\"]","index":0}},
            {"title":"B","description":null,"published":null,"published_at":null,"votes":null,
             "comments":null,"url":null,
             "target":{"by":"css","value":"a[data-testid=\"post-title\"]","index":1}}]}"#
        )
    );
}

#[test]
fn filters() {
    assert_eq!(filter_sp("any", "relevance"), Ok(None));
    assert_eq!(filter_sp("", ""), Ok(None));
    assert_eq!(filter_sp("today", "relevance"), Ok(Some("EgIIAg==")));
    assert_eq!(filter_sp("week", ""), Ok(Some("EgIIAw==")));
    assert_eq!(filter_sp("month", "relevance"), Ok(Some("EgIIBA==")));
    assert_eq!(filter_sp("year", "relevance"), Ok(Some("EgIIBQ==")));
    assert_eq!(filter_sp("any", "popularity"), Ok(Some("CAM=")));
    assert_eq!(filter_sp("today", "popularity"), Ok(Some("CAMSBAgCEAE=")));
    assert_eq!(filter_sp("week", "popularity"), Ok(Some("CAMSBAgDEAE=")));
    assert_eq!(filter_sp("month", "popularity"), Ok(Some("CAMSBAgEEAE=")));
    assert_eq!(filter_sp("year", "popularity"), Ok(Some("CAMSBAgFEAE=")));
    assert_eq!(
        filter_sp("hour", "best").unwrap_err(),
        "unknown upload date filter 'hour' (expected: any | today | week | month | year)"
    );
    assert_eq!(
        filter_sp("any", "best").unwrap_err(),
        "unknown sort filter 'best' (expected: relevance | popularity)"
    );
}

#[test]
fn youtube_results_are_distinct() {
    let items = vec![
        json(r#"{"title":"A","url":"u1","channel":"c"}"#),
        json(r#"{"title":" ","url":"u9"}"#),
        json(r#"{"title":"A again","url":"u1"}"#),
        json(r#"{"title":"no url"}"#),
        json(r#"{"title":"no url either"}"#),
        json(r#"{"title":"B","url":"u2"}"#),
    ];
    let all = build_results(&items, 10);
    let titles: Vec<_> = all.iter().map(|r| r.get_str("title").unwrap()).collect();
    assert_eq!(titles, ["A", "no url", "B"]);
    assert_eq!(
        all[2].get("target").unwrap().to_value(),
        value(r#"{"by":"css","value":"a#video-title","index":2}"#)
    );
    assert_eq!(
        all[0].to_value(),
        value(
            r#"{"title":"A","channel":"c","views":null,"published":null,"duration":null,
            "url":"u1","target":{"by":"css","value":"a#video-title","index":0}}"#
        )
    );
    assert_eq!(build_results(&items, 2).len(), 2);
    assert_eq!(build_results(&items, 0).len(), 0);
}

#[test]
fn youtube_search() {
    let p = youtubesearch("a b", "today", "popularity", 0, Some(1));
    let (state, call) = ask(p, "yt1", "navigate");
    assert_eq!(
        call.params.get_str("url"),
        Some("https://www.youtube.com/results?search_query=a+b&sp=CAMSBAgCEAE%3D")
    );
    let (state, call) = ask(state.step(Ok(json(r#"{"tab_id":3}"#))), "yt2", "run_script");
    let code = call.params.get_str("code").unwrap();
    assert!(code.starts_with("(async () => {\n  const MAX = 1;\n"));
    assert!(code.ends_with("})()"));
    assert!(code.contains("if (ctxStart >= 0) {\n"));
    let got = state.step(Ok(json(
        r#"{"result":{"ok":true,"items":[{"title":"A","url":"u"},{"title":"B","url":"v"}]}}"#,
    )));
    let out = done(got).unwrap();
    assert_eq!(out["tab_id"], value("3"));
    assert_eq!(out["results"].as_array().unwrap().len(), 1);
    assert_eq!(
        done(youtubesearch("q", "hour", "", 5, None)).unwrap_err(),
        "unknown upload date filter 'hour' (expected: any | today | week | month | year)"
    );
}

#[test]
fn youtube_search_without_data() {
    for (reply, reason) in
        [(r#"{"result":{"ok":false,"reason":"wall"}}"#, "wall"), (r#"{}"#, "unknown")]
    {
        let (state, _) = ask(youtubesearch("q", "", "", 5, None), "yt1", "navigate");
        let (state, _) = ask(state.step(Ok(json("{}"))), "yt2", "run_script");
        assert_eq!(
            done(state.step(Ok(json(reply)))).unwrap_err(),
            format!("YouTube 页面数据缺失（{reason}），可能是验证/consent 墙；确认浏览器登录状态正常后重试")
        );
    }
}

#[test]
fn youtube_video() {
    let (state, call) = ask(youtubeinfo("https://youtu.be/dQw4w9WgXcQ", None), "yiv1", "navigate");
    assert_eq!(
        call.params.to_value(),
        value(r#"{"url":"https://www.youtube.com/watch?v=dQw4w9WgXcQ","tab_id":null}"#)
    );
    let (state, call) = ask(state.step(Ok(json(r#"{"tab_id":4}"#))), "yiv2", "run_script");
    assert_eq!(call.params.get_str("code"), Some(EXTRACT_SCRIPT));
    let out = done(state.step(Ok(json(r#"{"result":{"ok":true,"video":{"title":"T"}}}"#))));
    assert_eq!(out.unwrap(), value(r#"{"tab_id":4,"video":{"title":"T"}}"#));
    let (state, _) = ask(youtubeinfo("dQw4w9WgXcQ", None), "yiv1", "navigate");
    let (state, _) = ask(state.step(Ok(json("{}"))), "yiv2", "run_script");
    assert_eq!(
        done(state.step(Ok(json(r#"{"result":{"reason":"gone"}}"#)))).unwrap_err(),
        "YouTube 视频数据缺失（gone），可能是视频不可用/地区限制/验证墙；确认浏览器能正常打开该视频后重试"
    );
    assert_eq!(done(youtubeinfo("", None)).unwrap_err(), "视频 URL 或 ID 不能为空");
}

#[test]
fn youtube_channel() {
    let (state, call) = ask(youtuberinfo("@me", 0, Some(2)), "ytbi1", "navigate");
    assert_eq!(
        call.params.to_value(),
        value(r#"{"url":"https://www.youtube.com/@me/videos","tab_id":2}"#)
    );
    let (state, call) = ask(state.step(Ok(json(r#"{"tab_id":4}"#))), "ytbi2", "run_script");
    let code = call.params.get_str("code").unwrap();
    assert!(code.starts_with("(async () => {\n  const MAX = 1;\n"));
    assert!(!code.contains("__MAX__"));
    let reply = r#"{"result":{"ok":true,"channel":{"name":"N"},"items":[{"title":"A","views":"1"}]}}"#;
    assert_eq!(
        done(state.step(Ok(json(reply)))).unwrap(),
        value(
            r#"{"tab_id":4,"channel":{"name":"N"},"videos":[{"title":"A","url":null,"views":"1",
            "views_count":null,"duration":null,"published":null,
            "target":{"by":"css","value":"a#video-title-link, a#video-title","index":0}}]}"#
        )
    );
    let (state, _) = ask(youtuberinfo("@me", 3, None), "ytbi1", "navigate");
    let (state, call) = ask(state.step(Ok(json("{}"))), "ytbi2", "run_script");
    assert!(call.params.get_str("code").unwrap().contains("const MAX = 3;"));
    assert_eq!(
        done(state.step(Ok(Json::Null))).unwrap_err(),
        "YouTube 频道数据缺失（unknown），可能是频道不存在/地区限制/验证墙；确认浏览器能正常打开该频道后重试"
    );
}

#[test]
fn trends_scripts_quote_their_input() {
    assert_eq!(
        trends_script("a\"b"),
        format!("{TRENDS_SCRIPT_HEAD}\"a\\\"b\"{TRENDS_SCRIPT_TAIL}")
    );
    let script = compare_script(&vec!["x".to_string(), "y\n".to_string()], "all");
    assert!(script.starts_with(&format!("{COMPARE_SCRIPT_HEAD}[\"x\",\"y\\n\"]")));
    assert!(script.ends_with(&format!("\"all\"{COMPARE_SCRIPT_TAIL}")));
}

#[test]
fn trend_of_a_query() {
    let (state, call) = ask(googletrends("rust", " ", ""), "gt1", "new_tab");
    assert_eq!(
        call.params.to_value(),
        value(r#"{"url":"https://trends.google.com/explore?q=rust&date=today+1-m&geo=Worldwide"}"#)
    );
    let (state, call) = ask(state.step(Ok(json(r#"{"tab_id":5}"#))), "gt2", "run_script");
    assert_eq!(call.params.get_str("code"), Some(trends_script("today 1-m").as_str()));
    let reply = r#"{"result":{"trend":[1],"top":[],"tables_available":true}}"#;
    assert_eq!(
        done(state.step(Ok(json(reply)))).unwrap(),
        value(
            r#"{"tab_id":5,"query":"rust","date":"today 1-m","geo":"Worldwide","trend":[1],
            "top":[],"rising":[],"regions":[]}"#
        )
    );
    let (state, _) = ask(googletrends("rust", "all", "US"), "gt1", "new_tab");
    let (state, _) = ask(state.step(Ok(json("{}"))), "gt2", "run_script");
    let out = done(state.step(Ok(json(r#"{"result":{}}"#)))).unwrap();
    assert_eq!(out["note"].as_str(), Some(NO_TABLES_NOTE));
    assert_eq!(out["date"].as_str(), Some("all"));
    assert_eq!(out["geo"].as_str(), Some("US"));
}

#[test]
fn missing_chart_is_tried_three_times() {
    let missing = || Ok(json(r#"{"result":{"error":"trend chart not loaded"}}"#));
    let (mut state, _) = ask(googletrends("q", "", ""), "gt1", "new_tab");
    for round in 0..3 {
        let (s, _) = ask(state.step(Ok(json(r#"{"tab_id":5}"#))), "gt2", "run_script");
        let (s, call) = ask(s.step(missing()), "gt3", "close_tab");
        assert_eq!(call.params.to_value(), value(r#"{"tab_id":5}"#));
        let next = s.step(Err("cannot close".to_string()));
        if round == 2 {
            assert_eq!(done(next).unwrap_err(), "googletrends: trend chart not loaded");
            return;
        }
        state = ask(next, "gt1", "new_tab").0;
    }
}

#[test]
fn tab_without_number_is_not_closed() {
    let (state, _) = ask(googletrends("q", "", ""), "gt1", "new_tab");
    let (state, _) = ask(state.step(Ok(json("{}"))), "gt2", "run_script");
    let reply = json(r#"{"result":{"error":"trend chart not loaded"}}"#);
    let (state, _) = ask(state.step(Ok(reply)), "gt1", "new_tab");
    let (state, _) = ask(state.step(Ok(json("{}"))), "gt2", "run_script");
    let out = done(state.step(Ok(json(r#"{"result":{"error":"other"}}"#))));
    assert_eq!(out.unwrap_err(), "googletrends: other");
}

#[test]
fn comparison_of_terms() {
    let terms = vec![" a ".to_string(), " ".to_string(), "b".to_string()];
    let (state, call) = ask(googletrends_compare(terms, "", ""), "gtc1", "new_tab");
    assert_eq!(
        call.params.get_str("url"),
        Some("https://trends.google.com/explore?q=a%2Cb&date=today+1-m&geo=Worldwide")
    );
    let (state, _) = ask(state.step(Ok(json(r#"{"tab_id":1}"#))), "gtc2", "run_script");
    let reply = json(r#"{"result":{"error":"comparison chart not loaded (expected 3 lines, got 0)"}}"#);
    let (state, _) = ask(state.step(Ok(reply)), "gtc3", "close_tab");
    let (state, _) = ask(state.step(Ok(Json::Null)), "gtc1", "new_tab");
    let (state, _) = ask(state.step(Ok(json(r#"{"tab_id":2}"#))), "gtc2", "run_script");
    assert_eq!(
        done(state.step(Ok(json(r#"{"result":{"series":[3]}}"#)))).unwrap(),
        value(
            r#"{"tab_id":2,"terms":[" a "," ","b"],"date":"today 1-m","geo":"Worldwide",
            "series":[3]}"#
        )
    );
    let (state, _) = ask(googletrends_compare(vec!["a".to_string()], "", ""), "gtc1", "new_tab");
    let (state, _) = ask(state.step(Ok(json("{}"))), "gtc2", "run_script");
    assert_eq!(
        done(state.step(Ok(json(r#"{"result":{"error":"e"}}"#)))).unwrap_err(),
        "googletrends-compare: e"
    );
    assert_eq!(
        done(googletrends_compare(Vec::new(), "", "")).unwrap_err(),
        "googletrends-compare: 至少需要一个关键词"
    );
}

#[test]
fn typed_terms_are_split() {
    let list = vec!["a, b,,".to_string(), "  ".to_string(), "c".to_string()];
    assert_eq!(split_terms(&list), ["a", "b", "c"]);
}

#[test]
fn price_badges() {
    for s in ["3 USD", " 11  EUR ", "30 CNY", "1,299.50 USD", "+.5e3 GBP", "1. US", "nan USDT",
        "-Infinity USD", "5E-2 USD"]
    {
        assert!(is_price_badge(s), "{s}");
    }
    for s in ["29 days ago", "2016", "DR 30", "3 usd", "3 U", "3 DOLLAR", "3 USD x", "", "1e USD",
        ". USD", ", USD", "1.2.3 USD", "0x1 USD", "1_0 USD", "+ USD", "infin USD", "3 ＵＳ"]
    {
        assert!(!is_price_badge(s), "{s}");
    }
}

#[test]
fn numbers_are_those_that_the_language_reads() {
    for n in ["1", "1.", ".1", ".", "", "e5", "1e5", "1e+5", "1e", "1e5.0", "--1", "+1", "inf",
        "INFINITY", "NaN", "nano", "12ab", "1e-", "00.00E00"]
    {
        let badge = format!("{n} USD");
        assert_eq!(is_price_badge(&badge), n.parse::<f64>().is_ok(), "{n}");
    }
}

fn start_query(tlds: &[&str]) -> Progress<browser_bridge::recipes::querydomains::QueryDomains> {
    let list: Vec<String> = tlds.iter().map(|s| s.to_string()).collect();
    querydomains(" bridge ", &list, Some(1))
}

#[test]
fn domains_with_the_usual_suffixes() {
    let (state, call) = ask(start_query(&[]), "qd1", "navigate");
    assert_eq!(
        call.params.to_value(),
        value(r#"{"url":"https://query.domains/zh-hans","tab_id":1}"#)
    );
    let (state, call) = ask(state.step(Ok(json(r#"{"tab_id":6}"#))), "qdw", "run_script");
    assert_eq!(call.params.get_str("code"), Some(WAIT_SCRIPT));
    let (state, call) =
        ask(state.step(Ok(json(r#"{"result":{"ready":true}}"#))), "qd5", "set_value");
    assert_eq!(
        call.params.to_value(),
        value(
            r#"{"target":{"by":"css","value":"input.bc-input__input"},"value":"bridge",
            "tab_id":6}"#
        )
    );
    let (state, call) = ask(state.step(Ok(Json::Null)), "qd6", "press_key");
    assert_eq!(
        call.params.to_value(),
        value(
            r#"{"key":"Enter","target":{"by":"css","value":"input.bc-input__input"},"tab_id":6}"#
        )
    );
    let (state, call) = ask(state.step(Ok(Json::Null)), "qd7", "run_script");
    assert_eq!(call.params.get_str("code"), Some(extract_script("bridge", 14).as_str()));
    let reply = r#"{"result":{"complete":true,"rows":[
        {"domain":"bridge.co.uk","status":"available","badges":["2016","3 USD","4 EUR"]},
        {"domain":"bridge","status":"odd"},
        {"status":"uncertain","badges":"none"}]}}"#;
    let out = done(state.step(Ok(json(reply)))).unwrap();
    assert_eq!(out["tlds"].as_array().unwrap().len(), 14);
    assert_eq!(out["tlds"][0].as_str(), Some("com"));
    assert_eq!(out["query"].as_str(), Some("bridge"));
    assert_eq!(out["complete"].as_bool(), Some(true));
    assert_eq!(
        out["results"],
        value(
            r#"[{"domain":"bridge.co.uk","tld":"co.uk","status":"available","available":true,
              "price":"3 USD","badges":["2016","3 USD","4 EUR"]},
             {"domain":"bridge","tld":"","status":"unavailable","available":false,
              "price":null,"badges":[]},
             {"domain":null,"tld":"","status":"uncertain","available":false,
              "price":null,"badges":"none"}]"#
        )
    );
}

#[test]
fn domains_with_other_suffixes() {
    let (state, _) = ask(start_query(&[" ..COM ", ".", "Ärzte"]), "qd1", "navigate");
    let (state, _) = ask(state.step(Ok(json("{}"))), "qdw", "run_script");
    let (state, call) = ask(state.step(Ok(json(r#"{"result":{"ready":true}}"#))), "qd2", "click");
    assert_eq!(
        call.params.to_value(),
        value(
            r#"{"target":{"by":"css","value":
            "div.flex.items-center.gap-3.mr-3 span.cursor-pointer"},"tab_id":null}"#
        )
    );
    let (state, call) = ask(state.step(Ok(Json::Null)), "qd3", "set_value");
    assert_eq!(call.params.get_str("value"), Some("com\närzte"));
    let (state, call) = ask(state.step(Ok(Json::Null)), "qd4", "click");
    assert_eq!(
        call.params.to_value(),
        value(r#"{"target":{"by":"text","value":"Confirm"},"tab_id":null}"#)
    );
    let (state, _) = ask(state.step(Ok(Json::Null)), "qd5", "set_value");
    let (state, _) = ask(state.step(Ok(Json::Null)), "qd6", "press_key");
    let (state, call) = ask(state.step(Ok(Json::Null)), "qd7", "run_script");
    assert_eq!(call.params.get_str("code"), Some(extract_script("bridge", 2).as_str()));
    assert_eq!(
        done(state.step(Ok(Json::Null))).unwrap(),
        value(
            r#"{"tab_id":null,"query":"bridge","tlds":["com","ärzte"],"complete":false,
            "results":[]}"#
        )
    );
}

#[test]
fn bad_domain_queries() {
    assert_eq!(
        done(querydomains("  ", &Vec::new(), None)).unwrap_err(),
        "querydomains: 关键词不能为空"
    );
    assert_eq!(done(start_query(&[" . "])).unwrap_err(), "querydomains: TLD 列表为空");
    assert_eq!(
        done(begin_query("q", Vec::new(), None)).unwrap_err(),
        "querydomains: TLD 列表为空"
    );
    ask(begin_query("q", vec!["co.uk".to_string()], None), "qd1", "navigate");
    assert_eq!(
        done(start_query(&["a"; 21])).unwrap_err(),
        "querydomains: 一次最多检查 20 个 TLD"
    );
    let (state, _) = ask(start_query(&["a"; 20]), "qd1", "navigate");
    let (state, _) = ask(state.step(Ok(json("{}"))), "qdw", "run_script");
    assert_eq!(
        done(state.step(Ok(json(r#"{"result":{"ready":false}}"#)))).unwrap_err(),
        "querydomains: 首页关键词输入框未就绪"
    );
    assert_eq!(default_tlds().len(), 14);
}

#[test]
fn domain_script_quotes_its_input() {
    let script = extract_script("a\"", 3);
    assert!(script.starts_with(&format!("{EXTRACT_SCRIPT_HEAD}\"a\\\"\";\n  const want = 3;")));
    assert!(script.ends_with(EXTRACT_SCRIPT_TAIL));
}
