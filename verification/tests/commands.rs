use browser_bridge::cli::{command, parse_fields, Cmd};
use browser_bridge::json::Json;
use browser_bridge::mcp::{
    mcp_client_id, BridgeMcp, CheckParams, ClickAtParams, ClickParams, GetPageMarkdownParams,
    GooglesearchParams, GoogletrendsCompareParams, GoogletrendsParams, NavigateParams,
    NewTabParams, PressKeyParams, QuerydomainsParams, RedditsearchParams, RunScriptParams,
    ScrapeParams, ScrollParams, SelectOptionParams, SetValueParams, TabParams, TargetParams,
    YoutubeinfoParams, YoutubesearchParams,
};
use browser_bridge::recipes::{Call, Progress};
use browser_bridge::target::{locator, optional_target, Target};

fn value(text: &str) -> serde_json::Value {
    serde_json::from_str(text).unwrap()
}

fn json(text: &str) -> Json {
    Json::parse(text).unwrap()
}

fn check(call: Call, id: &str, method: &str, params: &str) {
    assert_eq!(call.id, id);
    assert_eq!(call.method, method);
    assert_eq!(call.params.to_value(), value(params));
}

fn run(cmd: Cmd, method: &str, params: &str) {
    check(command(cmd).unwrap(), "c1", method, params);
}

fn some(s: &str) -> Option<String> {
    Some(s.to_string())
}

fn at(value: &str, by: &str, index: Option<usize>) -> Target {
    Target { value: value.to_string(), by: by.to_string(), index }
}

#[test]
fn targets() {
    assert_eq!(
        locator("css", "#submit", Some(0)).to_value(),
        value(r##"{"by":"css","value":"#submit","index":0}"##)
    );
    assert_eq!(
        at("登录", "text", None).locator().to_value(),
        value(r#"{"by":"text","value":"登录"}"#)
    );
    assert!(optional_target(None, "css", Some(1)).is_none());
    assert_eq!(
        optional_target(Some("//a"), "xpath", Some(1)).unwrap().to_value(),
        value(r#"{"by":"xpath","value":"//a","index":1}"#)
    );
}

#[test]
fn fields_of_a_scrape() {
    assert_eq!(
        parse_fields("name:.name, price : .price,,img:img@src,").unwrap().to_value(),
        value(r#"{"name":".name","price":".price","img":"img@src"}"#)
    );
    assert_eq!(
        parse_fields("a:b:c,a:d").unwrap().to_value(),
        value(r#"{"a":"d"}"#)
    );
    assert_eq!(parse_fields("x:a:hover").unwrap().to_value(), value(r#"{"x":"a:hover"}"#));
    assert_eq!(
        parse_fields("a:b, nope ,:").unwrap_err(),
        "字段格式应为 字段名:选择器，实际为：nope"
    );
    assert_eq!(parse_fields("a: ").unwrap_err(), "字段格式应为 字段名:选择器，实际为：a:");
    assert_eq!(parse_fields(":b").unwrap_err(), "字段格式应为 字段名:选择器，实际为：:b");
    assert_eq!(parse_fields(" , ").unwrap_err(), "--fields 不能为空");
    assert_eq!(parse_fields("").unwrap_err(), "--fields 不能为空");
}

#[test]
fn tab_commands() {
    run(Cmd::ListTabs, "list_tabs", "{}");
    run(Cmd::CloseTab { tab: Some(7) }, "close_tab", r#"{"tab_id":7}"#);
    run(Cmd::CloseTab { tab: None }, "close_tab", r#"{"tab_id":null}"#);
    run(Cmd::CloseAutoTabs, "close_auto_tabs", "{}");
    run(Cmd::NewTab { url: some("u") }, "new_tab", r#"{"url":"u"}"#);
    run(Cmd::NewTab { url: None }, "new_tab", r#"{"url":null}"#);
    run(Cmd::ActivateTab { tab: Some(-1) }, "activate_tab", r#"{"tab_id":-1}"#);
    run(
        Cmd::Navigate { url: "u".into(), tab: None },
        "navigate",
        r#"{"url":"u","tab_id":null}"#,
    );
    run(Cmd::GetPageContent { tab: None }, "get_page_content", r#"{"tab_id":null}"#);
    run(
        Cmd::GetPageMarkdown { url: some("u"), selector: None, tab: None },
        "get_page_markdown",
        r#"{"tab_id":null,"url":"u"}"#,
    );
    run(
        Cmd::GetPageMarkdown { url: None, selector: some("article"), tab: None },
        "get_page_markdown",
        r#"{"tab_id":null,"selector":"article"}"#,
    );
    run(
        Cmd::RunScript { code: "1".into(), tab: None },
        "run_script",
        r#"{"code":"1","tab_id":null}"#,
    );
}

#[test]
fn element_commands() {
    run(
        Cmd::Click { target: at("#s", "css", None), new_tab: false, timeout: None, tab: None },
        "click",
        r##"{"target":{"by":"css","value":"#s"},"tab_id":null}"##,
    );
    run(
        Cmd::Click {
            target: at("#s", "css", Some(2)),
            new_tab: true,
            timeout: Some(100),
            tab: Some(1),
        },
        "click",
        r##"{"target":{"by":"css","value":"#s","index":2},"tab_id":1,"new_tab":true,"timeout":100}"##,
    );
    run(
        Cmd::ClickAt { x: json("120"), y: json("340.5"), tab: None },
        "click_at",
        r#"{"x":120,"y":340.5,"tab_id":null}"#,
    );
    run(
        Cmd::PressKey {
            key: "a".into(),
            modifiers: vec!["ctrl".into(), "shift".into()],
            target: some("#q"),
            by: "css".into(),
            index: None,
            wait_load: true,
            tab: None,
        },
        "press_key",
        r##"{"key":"a","modifiers":["ctrl","shift"],"wait_load":true,
            "target":{"by":"css","value":"#q"},"tab_id":null}"##,
    );
    run(
        Cmd::PressKey {
            key: "Enter".into(),
            modifiers: Vec::new(),
            target: None,
            by: "css".into(),
            index: Some(1),
            wait_load: false,
            tab: None,
        },
        "press_key",
        r#"{"key":"Enter","tab_id":null}"#,
    );
    run(
        Cmd::Scroll {
            dx: json("0.0"),
            dy: json("800.0"),
            target: some("#list"),
            by: "css".into(),
            index: None,
            smooth: true,
            tab: None,
        },
        "scroll",
        r##"{"dx":0.0,"dy":800.0,"smooth":true,"target":{"by":"css","value":"#list"},
            "tab_id":null}"##,
    );
    run(
        Cmd::SetValue { target: at("#u", "css", None), value: "alice".into(), tab: None },
        "set_value",
        r##"{"target":{"by":"css","value":"#u"},"value":"alice","tab_id":null}"##,
    );
    for (uncheck, params) in [
        (false, r##"{"target":{"by":"css","value":"#a"},"checked":true,"tab_id":null}"##),
        (true, r##"{"target":{"by":"css","value":"#a"},"checked":false,"tab_id":null}"##),
    ] {
        run(Cmd::Check { target: at("#a", "css", None), uncheck, tab: None }, "check", params);
    }
    run(
        Cmd::SelectOption {
            target: at("#c", "css", None),
            value: some("v"),
            text: some("北京"),
            option_index: Some(3),
            tab: None,
        },
        "select_option",
        r##"{"target":{"by":"css","value":"#c"},"value":"v","text":"北京","index":3,"tab_id":null}"##,
    );
    run(
        Cmd::Clear { target: at("#c", "css", None), tab: None },
        "clear",
        r##"{"target":{"by":"css","value":"#c"},"tab_id":null}"##,
    );
    run(
        Cmd::GetValue { target: at("#c", "css", None), tab: None },
        "get_value",
        r##"{"target":{"by":"css","value":"#c"},"tab_id":null}"##,
    );
}

fn scrape(fields: Option<String>) -> Cmd {
    Cmd::Scrape {
        item: "div".into(),
        fields,
        title: some("h3"),
        link: None,
        desc: some(".d"),
        timeout: Some(5),
        tab: None,
    }
}

#[test]
fn scrape_command() {
    run(
        scrape(None),
        "scrape",
        r#"{"item":"div","title":"h3","desc":".d","timeout":5,"tab_id":null}"#,
    );
    run(
        scrape(some("a:b")),
        "scrape",
        r#"{"item":"div","fields":{"a":"b"},"title":"h3","desc":".d","timeout":5,"tab_id":null}"#,
    );
    assert_eq!(command(scrape(some(""))).unwrap_err(), "--fields 不能为空");
}

#[test]
fn mcp_identities() {
    assert_eq!(mcp_client_id(42, 255), "mcp-42-ff");
    assert_eq!(mcp_client_id(0, 0), "mcp-0-0");
    assert_ne!(mcp_client_id(4, 0x2), mcp_client_id(42, 0));
}

#[test]
fn mcp_tab_tools() {
    let mcp = BridgeMcp::new("mcp-1-a".to_string());
    check(mcp.list_tabs(), "lt", "list_tabs", "{}");
    check(mcp.close_tab(TabParams { tab_id: Some(1) }), "ct", "close_tab", r#"{"tab_id":1}"#);
    check(mcp.close_auto_tabs(), "cat", "close_auto_tabs", r#"{"owner":"mcp-1-a"}"#);
    check(mcp.new_tab(NewTabParams { url: some("u") }), "nt", "new_tab", r#"{"url":"u"}"#);
    check(
        mcp.activate_tab(TabParams { tab_id: None }),
        "at",
        "activate_tab",
        r#"{"tab_id":null}"#,
    );
    check(
        mcp.navigate(NavigateParams { url: "u".into(), tab_id: None }),
        "nav",
        "navigate",
        r#"{"url":"u","tab_id":null}"#,
    );
    check(
        mcp.run_script(RunScriptParams { code: "1".into(), tab_id: None }),
        "rs",
        "run_script",
        r#"{"code":"1","tab_id":null}"#,
    );
    check(
        mcp.get_page_content(TabParams { tab_id: None }),
        "gpc",
        "get_page_content",
        r#"{"tab_id":null}"#,
    );
    check(
        mcp.get_page_markdown(GetPageMarkdownParams {
            url: None,
            selector: some("main"),
            full: Some(true),
            tab_id: None,
        }),
        "gpm",
        "get_page_markdown",
        r#"{"selector":"main","full":true,"tab_id":null}"#,
    );
}

#[test]
fn mcp_element_tools() {
    let mcp = BridgeMcp::new("m".to_string());
    check(
        mcp.click(ClickParams {
            target: "#s".into(),
            by: None,
            index: None,
            timeout: Some(9),
            new_tab: Some(false),
            tab_id: None,
        }),
        "clk",
        "click",
        r##"{"target":{"by":"css","value":"#s"},"timeout":9,"tab_id":null}"##,
    );
    check(
        mcp.click(ClickParams {
            target: "x".into(),
            by: some("text"),
            index: Some(1),
            timeout: None,
            new_tab: Some(true),
            tab_id: None,
        }),
        "clk",
        "click",
        r#"{"target":{"by":"text","value":"x","index":1},"new_tab":true,"tab_id":null}"#,
    );
    check(
        mcp.click_at(ClickAtParams { x: json("1.5"), y: json("2"), tab_id: None }),
        "cxy",
        "click_at",
        r#"{"x":1.5,"y":2,"tab_id":null}"#,
    );
    check(
        mcp.press_key(PressKeyParams {
            key: "F5".into(),
            modifiers: Some(Vec::new()),
            target: some("#q"),
            by: None,
            index: None,
            wait_load: Some(true),
            tab_id: None,
        }),
        "pk",
        "press_key",
        r##"{"key":"F5","modifiers":[],"wait_load":true,"target":{"by":"css","value":"#q"},
            "tab_id":null}"##,
    );
    check(
        mcp.scroll(ScrollParams {
            dx: json("0.0"),
            dy: json("1.0"),
            target: None,
            by: None,
            index: None,
            smooth: None,
            tab_id: None,
        }),
        "scr",
        "scroll",
        r#"{"dx":0.0,"dy":1.0,"smooth":false,"tab_id":null}"#,
    );
    check(
        mcp.set_value(SetValueParams {
            target: "#u".into(),
            value: "v".into(),
            by: None,
            index: None,
            tab_id: None,
        }),
        "sv",
        "set_value",
        r##"{"target":{"by":"css","value":"#u"},"value":"v","tab_id":null}"##,
    );
    check(
        mcp.check(CheckParams {
            target: "#u".into(),
            checked: None,
            by: None,
            index: None,
            tab_id: None,
        }),
        "chk",
        "check",
        r##"{"target":{"by":"css","value":"#u"},"checked":true,"tab_id":null}"##,
    );
    check(
        mcp.select_option(SelectOptionParams {
            target: "#u".into(),
            option_value: None,
            option_text: some("t"),
            option_index: Some(0),
            by: None,
            index: None,
            tab_id: None,
        }),
        "so",
        "select_option",
        r##"{"target":{"by":"css","value":"#u"},"text":"t","index":0,"tab_id":null}"##,
    );
    let element =
        || TargetParams { target: "//a".into(), by: some("xpath"), index: None, tab_id: Some(3) };
    let params = r#"{"target":{"by":"xpath","value":"//a"},"tab_id":3}"#;
    check(mcp.clear(element()), "clr", "clear", params);
    check(mcp.get_value(element()), "gv", "get_value", params);
    check(
        mcp.scrape(ScrapeParams {
            item: "div".into(),
            fields: Some(vec![("a".into(), "b".into()), ("c".into(), "d".into())]),
            title: None,
            link: some("a"),
            desc: None,
            timeout: None,
            tab_id: None,
        }),
        "scp",
        "scrape",
        r#"{"item":"div","fields":{"a":"b","c":"d"},"link":"a","tab_id":null}"#,
    );
}

fn first<S>(p: Progress<S>) -> (String, String) {
    match p {
        Progress::Ask(_, call) => (
            call.id.to_string(),
            call.params.get_str("url").unwrap_or("").to_string(),
        ),
        Progress::Done(outcome) => panic!("{outcome:?}"),
    }
}

#[test]
fn mcp_recipe_tools() {
    let mcp = BridgeMcp::new("m".to_string());
    assert_eq!(
        first(mcp.googlesearch_tool(GooglesearchParams { query: "q".into(), tab_id: None })).1,
        "https://www.google.com/search?q=q"
    );
    assert_eq!(
        first(mcp.redditsearch_tool(RedditsearchParams { query: "q".into(), tab_id: None })).1,
        "https://www.reddit.com/search/?q=q"
    );
    let p = mcp.youtubesearch_tool(YoutubesearchParams {
        query: "q".into(),
        time: None,
        sort: None,
        max: None,
        tab_id: None,
    });
    match p {
        Progress::Ask(state, call) => {
            assert_eq!(
                call.params.get_str("url"),
                Some("https://www.youtube.com/results?search_query=q")
            );
            match state.step(Ok(Json::Null)) {
                Progress::Ask(_, call) => {
                    assert!(call.params.get_str("code").unwrap().contains("const MAX = 5;"))
                }
                Progress::Done(outcome) => panic!("{outcome:?}"),
            }
        }
        Progress::Done(outcome) => panic!("{outcome:?}"),
    }
    assert_eq!(
        first(mcp.youtubeinfo_tool(YoutubeinfoParams {
            url: "dQw4w9WgXcQ".into(),
            tab_id: None
        }))
        .1,
        "https://www.youtube.com/watch?v=dQw4w9WgXcQ"
    );
    let page = "https://trends.google.com/explore?q=q&date=today+1-m&geo=Worldwide";
    assert_eq!(
        first(mcp.googletrends_tool(GoogletrendsParams {
            query: "q".into(),
            date: None,
            geo: None
        }))
        .1,
        page
    );
    assert_eq!(
        first(mcp.googletrends_compare_tool(GoogletrendsCompareParams {
            terms: vec!["q".into()],
            date: None,
            geo: None
        })),
        ("gtc1".to_string(), page.to_string())
    );
    assert_eq!(
        first(mcp.querydomains_tool(QuerydomainsParams {
            query: "q".into(),
            tlds: None,
            tab_id: None
        })),
        ("qd1".to_string(), "https://query.domains/zh-hans".to_string())
    );
}
