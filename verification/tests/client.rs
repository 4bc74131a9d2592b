use browser_bridge::encode::{enc_segment, urlencode};
use browser_bridge::json::Json;
use browser_bridge::transport::{
    connect_bridge, connect_error, hello_text, receive, request, server_binary_path, server_port,
    take_frame, time_left, wire_id, Attempt, Bridge, Dial, DialStep, Incoming, Next, RequestIds,
    ServerBinary, AUTO_SPAWN_IDLE_TIMEOUT, STARTUP_PAUSE_MILLIS,
};
use browser_bridge::wire::WireMessage;

fn value(text: &str) -> serde_json::Value {
    serde_json::from_str(text).unwrap()
}

#[test]
fn encoding_of_queries_and_segments() {
    assert_eq!(urlencode("Haze Seas"), "Haze+Seas");
    assert_eq!(urlencode("a-_.~Z9"), "a-_.~Z9");
    assert_eq!(urlencode("@/?&=%"), "%40%2F%3F%26%3D%25");
    assert_eq!(urlencode("北京"), "%E5%8C%97%E4%BA%AC");
    assert_eq!(urlencode(""), "");
    assert_eq!(enc_segment("@a b"), "@a%20b");
    assert_ne!(urlencode("a b"), urlencode("a+b"));
}

#[test]
fn texts_are_read_and_printed() {
    let j = Json::parse(r#"{"b": [1, -2, 2.5, true, null], "a": "x\ny", "b": 7}"#).unwrap();
    assert_eq!(j.to_text(), r#"{"a":"x\ny","b":7}"#);
    assert_eq!(j.get_str("a"), Some("x\ny"));
    assert_eq!(j.get_or_null("c"), Json::Null);
    assert_eq!(Json::parse("[1,{}]").unwrap().to_pretty(), "[\n  1,\n  {}\n]");
    let err = Json::parse("{").unwrap_err();
    assert_eq!(err, serde_json::from_str::<serde_json::Value>("{").unwrap_err().to_string());
    assert_eq!(Json::text("a\"\\\u{1}\n").to_text(), r#""a\"\\\u0001\n""#);
    let list = vec!["a".to_string(), "\"".to_string()];
    assert_eq!(Json::text_array(&list).to_text(), r#"["a","\""]"#);
    let copy = Json::parse("[1.5, {\"k\": [null]}]").unwrap();
    assert_eq!(copy.clone(), copy);
    assert_eq!(copy.to_value(), value("[1.5, {\"k\": [null]}]"));
}

#[test]
fn greeting_and_request_texts() {
    assert_eq!(
        value(&hello_text(Some("cli"))),
        value(r#"{"type":"hello","role":"client","name":"bridge-client","client_id":"cli"}"#)
    );
    assert_eq!(
        value(&hello_text(None)),
        value(r#"{"type":"hello","role":"client","name":"bridge-client"}"#)
    );
    assert_eq!(
        value(&request("a", "navigate", Json::parse("{\"x\":1}").unwrap())),
        value(r#"{"id":"a","method":"navigate","params":{"x":1}}"#)
    );
}

#[test]
fn wire_ids_are_unique() {
    assert_eq!(wire_id("c1", 42, 0), "c1-42-0");
    let mut ids = RequestIds::new(42);
    assert_eq!(ids.issue("c1"), "c1-42-0");
    assert_eq!(ids.issue("c1"), "c1-42-1");
    assert_eq!(ids.issue("gs1"), "gs1-42-2");
    assert_ne!(wire_id("c1", 4, 20), wire_id("c1", 42, 0));
    assert_ne!(wire_id("c1-4", 2, 0), wire_id("c1", 4, 20));
}

fn frame(text: &str) -> Option<Result<Json, String>> {
    match receive("r1", Incoming::Text(text.to_string())) {
        Some(Attempt::Over(outcome)) => Some(outcome),
        Some(broken) => panic!("{broken:?}"),
        None => None,
    }
}

#[test]
fn responses_are_paired_by_id() {
    assert!(frame(r#"{"id":"r2","success":true}"#).is_none());
    assert!(frame(r#"{"success":true}"#).is_none());
    assert!(frame("[]").is_none());
    assert!(receive("r1", Incoming::OtherFrame).is_none());
    assert_eq!(
        frame(r#"{"id":"r1","success":true,"result":{"a":1}}"#),
        Some(Ok(Json::parse(r#"{"a":1}"#).unwrap()))
    );
    assert_eq!(frame(r#"{"id":"r1","success":true}"#), Some(Ok(Json::Null)));
    assert_eq!(frame(r#"{"id":"r1","success":false,"error":"no"}"#), Some(Err("no".to_string())));
    assert_eq!(frame(r#"{"id":"r1","error":3}"#), Some(Err("unknown error".to_string())));
}

#[test]
fn waiting_can_fail() {
    assert!(
        matches!(receive("r1", Incoming::Closed), Some(Attempt::Broken(e)) if e == "连接已关闭")
    );
    assert!(matches!(receive("r1", Incoming::TimeUp), Some(Attempt::Over(Err(e)))
        if e == "等待响应超时"));
    assert!(matches!(receive("r1", Incoming::Failed("boom".to_string())),
        Some(Attempt::Broken(e)) if e == "boom"));
    let reason = serde_json::from_str::<serde_json::Value>("nope").unwrap_err().to_string();
    assert_eq!(frame("nope"), Some(Err(format!("响应解析失败: {reason}"))));
    assert_eq!(
        take_frame("r1", Err("bad".to_string())),
        Some(Err("响应解析失败: bad".to_string()))
    );
    assert_eq!(time_left(0), 35_000_000_000);
    assert_eq!(time_left(34_999_999_999), 1);
    assert_eq!(time_left(35_000_000_000), 0);
    assert_eq!(time_left(u128::MAX), 0);
}

#[test]
fn request_is_retried_once() {
    let bridge = Bridge::connect("ws://127.0.0.1:9225", None);
    assert_eq!(bridge.client_id(), "cli");
    assert_eq!(bridge.server(), "ws://127.0.0.1:9225");
    assert_eq!(Bridge::connect("s", Some("me")).client_id(), "me");
    let mut ids = RequestIds::new(9);
    let mut ex = bridge.request(&mut ids, "c1", "list_tabs", Json::Object(Vec::new()));
    assert_eq!(ex.id(), "c1-9-0");
    let text = ex.text().to_string();
    assert_eq!(value(&text), value(r#"{"id":"c1-9-0","method":"list_tabs","params":{}}"#));
    assert!(matches!(ex.attempted(Attempt::Broken("x".to_string())),
        Next::Reconnect { server, client_id }
        if server == "ws://127.0.0.1:9225" && client_id == "cli"));
    assert!(matches!(ex.reconnected(None), Next::Send(again) if again == text));
    assert!(matches!(ex.attempted(Attempt::Broken("y".to_string())),
        Next::Finish(Err(e)) if e == "y"));

    let mut ex = bridge.request(&mut ids, "c1", "list_tabs", Json::Null);
    assert_eq!(ex.id(), "c1-9-1");
    assert!(matches!(ex.attempted(Attempt::Over(Ok(Json::Bool(true)))),
        Next::Finish(Ok(Json::Bool(true)))));

    let mut ex = bridge.request(&mut ids, "c1", "list_tabs", Json::Null);
    ex.attempted(Attempt::Broken("x".to_string()));
    assert!(
        matches!(ex.reconnected(Some("down".to_string())), Next::Finish(Err(e)) if e == "down")
    );
}

#[test]
fn answered_error_is_not_sent_again() {
    let bridge = Bridge::connect_with_client_id("ws://h:1", "me");
    let mut ids = RequestIds::new(1);
    for text in ["no extension connected", "等待响应超时"] {
        let mut ex = bridge.request(&mut ids, "clk", "click", Json::Null);
        assert!(matches!(ex.attempted(Attempt::Over(Err(text.to_string()))),
            Next::Finish(Err(e)) if e == text));
    }
}

#[test]
fn dialling_starts_the_server() {
    let server = "ws://127.0.0.1:9225";
    let (dial, step) = connect_bridge(server, "cli", Dial::Trying, None, 0);
    assert!(matches!(step, DialStep::Greet(text) if text == hello_text(Some("cli"))));
    let (_, step) = connect_bridge(server, "cli", dial, None, 0);
    assert!(matches!(step, DialStep::Ready));

    let (dial, step) = connect_bridge(server, "cli", Dial::Trying, Some("refused".into()), 0);
    assert!(matches!(step, DialStep::StartServer));
    let (dial, step) = connect_bridge(server, "cli", dial, None, 0);
    assert!(matches!(step, DialStep::Connect));
    let (dial, step) = connect_bridge(server, "cli", dial, Some("refused".into()), 4_999_999_999);
    assert!(matches!(step, DialStep::PauseAndConnect));
    let (_, step) = connect_bridge(server, "cli", dial, Some("refused".into()), 5_000_000_000);
    assert!(matches!(step, DialStep::Fail(e)
        if e == "自动启动 bridge-server 后仍无法连接 ws://127.0.0.1:9225: refused"));

    let (dial, _) = connect_bridge(server, "cli", Dial::Trying, Some("refused".into()), 0);
    let (_, step) = connect_bridge(server, "cli", dial, Some("no file".into()), 0);
    assert!(matches!(step, DialStep::Fail(e)
        if e == "无法连接 ws://127.0.0.1:9225（server 是否在运行？）: refused；自动启动失败: no file"));
    let (_, step) = connect_bridge(server, "cli", Dial::ComingUp, None, 0);
    assert!(matches!(step, DialStep::Greet(_)));
    let (_, step) = connect_bridge(server, "cli", Dial::Greeting, Some("reset".into()), 0);
    assert!(matches!(step, DialStep::Fail(e) if e == "reset"));
    assert_eq!(connect_error("ws://h:1", "refused"), "无法连接 ws://h:1（server 是否在运行？）: refused");
    assert_eq!(browser_bridge::settings::idle_timeout(Some(AUTO_SPAWN_IDLE_TIMEOUT)), 120);
    assert_eq!(STARTUP_PAUSE_MILLIS, 200);
}

#[test]
fn port_of_an_address() {
    assert_eq!(server_port("ws://127.0.0.1:9225"), "9225");
    assert_eq!(server_port("ws://127.0.0.1:9226//"), "9226");
    assert_eq!(server_port("ws://127.0.0.1:9226/////"), "9226");
    assert_eq!(server_port("localhost"), "localhost");
    assert_eq!(server_port(""), "");
    assert_eq!(
        browser_bridge::settings::listen_port(Some(&server_port("ws://h:9300///"))),
        9300
    );
}

#[test]
fn server_program_is_looked_for_in_order() {
    fn at(r: Result<ServerBinary, String>) -> String {
        match r {
            Ok(ServerBinary::At(p)) => p,
            other => panic!("{other:?}"),
        }
    }
    assert_eq!(at(server_binary_path(Some(("/x/s", true)), true, true, true)), "/x/s");
    assert_eq!(
        server_binary_path(Some(("/x/s", false)), true, true, true).unwrap_err(),
        "BRIDGE_SERVER_BIN 指向的文件不存在: /x/s"
    );
    assert!(matches!(server_binary_path(None, true, true, true), Ok(ServerBinary::Beside)));
    assert_eq!(
        at(server_binary_path(None, false, true, true)),
        "target/release/bridge-server"
    );
    assert_eq!(at(server_binary_path(None, false, false, true)), "target/debug/bridge-server");
    assert_eq!(at(server_binary_path(None, false, false, false)), "bridge-server");
}

#[test]
fn what_the_hub_answers_is_understood() {
    let text = WireMessage::ok("r1", Json::text("x\"y")).to_text();
    assert!(matches!(receive("r1", Incoming::Text(text.clone())),
        Some(Attempt::Over(Ok(v))) if v == Json::text("x\"y")));
    assert!(receive("r2", Incoming::Text(text)).is_none());
    let text = WireMessage::err("r1", "no extension connected").to_text();
    assert!(matches!(receive("r1", Incoming::Text(text)),
        Some(Attempt::Over(Err(e))) if e == "no extension connected"));
}
