use browser_bridge::hub::{Action, Hub, HubMsg};
use browser_bridge::json::Json;
use browser_bridge::number::{parse_integer, parse_number};
use browser_bridge::session::{handle_conn, Arrival, Effect, Input, Phase};
use browser_bridge::settings::{
    idle_expired, idle_note, idle_timeout, listen_addr, listen_port,
};
use browser_bridge::wire::{Role, WireMessage};

fn register(conn_id: u64, role: Role, name: &str, client_id: Option<&str>) -> HubMsg {
    HubMsg::Register {
        conn_id,
        role,
        name: name.to_string(),
        client_id: client_id.map(|s| s.to_string()),
    }
}

fn request(id: &str, method: &str, params: &str) -> WireMessage {
    let mut msg = WireMessage::empty();
    msg.id = Some(id.to_string());
    msg.method = Some(method.to_string());
    msg.params = Some(Json::parse(params).unwrap());
    msg
}

fn sent(actions: &[Action]) -> Vec<(u64, &WireMessage)> {
    let mut out = Vec::new();
    for a in actions {
        if let Action::Send { to, msg } = a {
            out.push((*to, msg));
        }
    }
    out
}

fn connected() -> Hub {
    let mut hub = Hub::new();
    assert!(hub.handle(register(1, Role::Extension, "chrome", None)).is_empty());
    assert!(hub.handle(register(2, Role::Client, "cli", Some("cli"))).is_empty());
    hub
}

#[test]
fn routes_request_to_extension_and_response_back_to_client() {
    let mut hub = connected();
    let req = request("r1", "navigate", r#"{ "url": "https://example.com" }"#);
    let actions = hub.handle(HubMsg::Forward { conn_id: 2, msg: req });
    let out = sent(&actions);
    assert_eq!(out.len(), 1);
    let (to, forwarded) = out[0];
    assert_eq!(to, 1);
    assert_eq!(forwarded.id.as_deref(), Some("r1"));
    assert_eq!(forwarded.method.as_deref(), Some("navigate"));
    assert_eq!(forwarded.client_id.as_deref(), Some("cli"));
    assert!(matches!(actions.last(), Some(Action::StartTimer { id }) if id == "r1"));

    let answer = WireMessage::ok("r1", Json::parse(r#"{ "title": "Example" }"#).unwrap());
    let actions = hub.handle(HubMsg::Forward { conn_id: 1, msg: answer });
    let out = sent(&actions);
    assert_eq!(out.len(), 1);
    let (to, resp) = out[0];
    assert_eq!(to, 2);
    assert_eq!(resp.id.as_deref(), Some("r1"));
    assert_eq!(resp.success, Some(true));
    assert_eq!(resp.result.as_ref().and_then(|r| r.get_str("title")), Some("Example"));
    assert!(matches!(&actions[0], Action::CancelTimer { id } if id == "r1"));
}

#[test]
fn errors_when_no_extension_connected() {
    let mut hub = Hub::new();
    hub.handle(register(2, Role::Client, "cli", Some("cli")));
    let actions = hub.handle(HubMsg::Forward { conn_id: 2, msg: request("r1", "list_tabs", "{}") });
    let out = sent(&actions);
    assert_eq!(out[0].1.success, Some(false));
    assert_eq!(out[0].1.error.as_deref(), Some("no extension connected"));
}

#[test]
fn request_without_id_is_refused() {
    let mut hub = connected();
    for id in [None, Some(String::new())] {
        let mut msg = request("x", "list_tabs", "{}");
        msg.id = id;
        let actions = hub.handle(HubMsg::Forward { conn_id: 2, msg });
        let out = sent(&actions);
        assert_eq!(out.len(), 1);
        assert_eq!(out[0].0, 2);
        assert_eq!(out[0].1.id.as_deref(), Some(""));
        assert_eq!(out[0].1.error.as_deref(), Some("missing id"));
    }
    let mut msg = request("x", "y", "{}");
    msg.id = None;
    assert!(hub.handle(HubMsg::Forward { conn_id: 1, msg }).is_empty());
}

#[test]
fn ping_is_answered_to_its_sender() {
    let mut hub = connected();
    for conn in [1u64, 2] {
        let actions = hub.handle(HubMsg::Forward { conn_id: conn, msg: request("p1", "ping", "{}") });
        assert_eq!(actions.len(), 1);
        let out = sent(&actions);
        assert_eq!(out[0].0, conn);
        assert_eq!(out[0].1.success, Some(true));
        assert_eq!(out[0].1.result.as_ref().and_then(|r| r.get_bool("pong")), Some(true));
    }
}

#[test]
fn unanswered_request_times_out_once() {
    let mut hub = connected();
    hub.handle(HubMsg::Forward { conn_id: 2, msg: request("r1", "list_tabs", "{}") });
    let actions = hub.handle(HubMsg::TimedOut { id: "r1".to_string() });
    let out = sent(&actions);
    assert_eq!(out[0].0, 2);
    assert_eq!(
        out[0].1.error.as_deref(),
        Some("timeout: extension did not respond in 30s")
    );
    assert!(hub.handle(HubMsg::TimedOut { id: "r1".to_string() }).is_empty());
    let late = WireMessage::ok("r1", Json::Null);
    assert!(hub.handle(HubMsg::Forward { conn_id: 1, msg: late }).is_empty());
}

#[test]
fn answered_request_is_over() {
    let mut hub = connected();
    hub.handle(HubMsg::Forward { conn_id: 2, msg: request("r1", "list_tabs", "{}") });
    assert_eq!(
        hub.handle(HubMsg::Forward { conn_id: 1, msg: WireMessage::ok("r1", Json::Null) }).len(),
        2
    );
    assert!(hub
        .handle(HubMsg::Forward { conn_id: 1, msg: WireMessage::ok("r1", Json::Null) })
        .is_empty());
    assert!(hub.handle(HubMsg::TimedOut { id: "r1".to_string() }).is_empty());
}

#[test]
fn requests_of_two_clients_do_not_mix() {
    let mut hub = connected();
    hub.handle(register(3, Role::Client, "other", None));
    hub.handle(HubMsg::Forward { conn_id: 2, msg: request("a", "list_tabs", "{}") });
    let actions = hub.handle(HubMsg::Forward { conn_id: 3, msg: request("b", "list_tabs", "{}") });
    assert_eq!(sent(&actions)[0].1.client_id, None);
    let b = hub.handle(HubMsg::Forward { conn_id: 1, msg: WireMessage::ok("b", Json::Null) });
    assert_eq!(sent(&b)[0].0, 3);
    let a = hub.handle(HubMsg::Forward { conn_id: 1, msg: WireMessage::err("a", "no") });
    assert_eq!(sent(&a)[0].0, 2);
    assert_eq!(sent(&a)[0].1.error.as_deref(), Some("no"));
}

#[test]
fn reused_id_restarts_its_timer() {
    let mut hub = connected();
    hub.handle(HubMsg::Forward { conn_id: 2, msg: request("a", "x", "{}") });
    let actions = hub.handle(HubMsg::Forward { conn_id: 2, msg: request("a", "y", "{}") });
    assert_eq!(actions.len(), 3);
    assert!(matches!(&actions[1], Action::CancelTimer { id } if id == "a"));
    assert!(matches!(&actions[2], Action::StartTimer { id } if id == "a"));
}

#[test]
fn new_extension_displaces_the_old() {
    let mut hub = connected();
    hub.handle(HubMsg::Forward { conn_id: 2, msg: request("a", "x", "{}") });
    let actions = hub.handle(register(5, Role::Extension, "chrome", None));
    assert!(matches!(actions[0], Action::Close { conn_id: 1 }));
    assert!(matches!(actions[1], Action::CancelTimers));
    assert!(hub.handle(HubMsg::TimedOut { id: "a".to_string() }).is_empty());
    assert!(hub
        .handle(HubMsg::Forward { conn_id: 1, msg: WireMessage::ok("a", Json::Null) })
        .is_empty());
    assert!(hub.handle(HubMsg::Unregister { conn_id: 1 }).is_empty());
    let actions = hub.handle(HubMsg::Forward { conn_id: 2, msg: request("b", "x", "{}") });
    assert_eq!(sent(&actions)[0].0, 5);
}

#[test]
fn lost_extension_gives_up_its_requests() {
    let mut hub = connected();
    hub.handle(HubMsg::Forward { conn_id: 2, msg: request("a", "x", "{}") });
    let actions = hub.handle(HubMsg::Unregister { conn_id: 1 });
    assert!(matches!(actions[0], Action::CancelTimers));
    assert!(matches!(actions[1], Action::Close { conn_id: 1 }));
    assert!(hub.handle(HubMsg::TimedOut { id: "a".to_string() }).is_empty());
    let actions = hub.handle(HubMsg::Forward { conn_id: 2, msg: request("b", "x", "{}") });
    assert_eq!(sent(&actions)[0].1.error.as_deref(), Some("no extension connected"));
}

#[test]
fn lost_client_gets_nothing() {
    let mut hub = connected();
    hub.handle(HubMsg::Forward { conn_id: 2, msg: request("a", "x", "{}") });
    hub.handle(HubMsg::Unregister { conn_id: 2 });
    let actions =
        hub.handle(HubMsg::Forward { conn_id: 1, msg: WireMessage::ok("a", Json::Null) });
    assert_eq!(actions.len(), 1);
    assert!(hub.handle(HubMsg::Forward { conn_id: 2, msg: request("b", "x", "{}") }).is_empty());
}

fn hello(role: Option<&str>, name: Option<&str>) -> Input {
    let mut msg = WireMessage::empty();
    msg.type_ = Some("hello".to_string());
    msg.role = role.map(|s| s.to_string());
    msg.name = name.map(|s| s.to_string());
    Input::Arrived(Arrival::Message(msg))
}

fn refused(input: Input) -> String {
    match handle_conn(7, Phase::Handshake, input) {
        (Phase::Closed, Some(Effect::Answer(text))) => text,
        other => panic!("{other:?}"),
    }
}

#[test]
fn messages_as_text() {
    let answer = WireMessage::ok("a", Json::parse(r#"{"t":[1]}"#).unwrap());
    assert_eq!(answer.to_text(), r#"{"id":"a","success":true,"result":{"t":[1]}}"#);
    assert_eq!(
        WireMessage::err("a", "no").to_text(),
        r#"{"id":"a","success":false,"error":"no"}"#
    );
    assert_eq!(WireMessage::empty().to_text(), "{}");
    let mut msg = request("r1", "navigate", r#"{"url":"u"}"#);
    msg.client_id = Some("cli".to_string());
    msg.type_ = Some("t".to_string());
    msg.role = Some("r".to_string());
    msg.name = Some("n".to_string());
    assert_eq!(
        msg.to_text(),
        r#"{"id":"r1","type":"t","role":"r","name":"n","client_id":"cli","method":"navigate","params":{"url":"u"}}"#
    );
}

#[test]
fn messages_are_read_back() {
    let mut msg = request("r\"1", "navigate", r#"{"url":"u\u0001","n":[-9223372036854775808,18446744073709551615]}"#);
    msg.type_ = Some("t".to_string());
    msg.role = Some(String::new());
    msg.name = Some("名".to_string());
    msg.client_id = Some("cli".to_string());
    msg.success = Some(false);
    msg.result = Some(Json::Array(vec![Json::Null, Json::Bool(true)]));
    msg.error = Some("no\n".to_string());
    let read = Json::parse(&msg.to_text()).unwrap();
    assert_eq!(read.get_str("id"), Some("r\"1"));
    assert_eq!(read.get_str("type"), Some("t"));
    assert_eq!(read.get_str("role"), Some(""));
    assert_eq!(read.get_str("name"), Some("名"));
    assert_eq!(read.get_str("client_id"), Some("cli"));
    assert_eq!(read.get_str("method"), Some("navigate"));
    let params = read.get("params").unwrap();
    assert_eq!(params.get_str("url"), Some("u\u{1}"));
    assert_eq!(params.get_items("n"), vec![Json::integer(i64::MIN), Json::unsigned(u64::MAX)]);
    assert_eq!(read.get_bool("success"), Some(false));
    assert_eq!(read.get("result"), msg.result.as_ref());
    assert_eq!(read.get_str("error"), Some("no\n"));
    let read = Json::parse(&WireMessage::err("a", "no").to_text()).unwrap();
    for key in ["type", "role", "name", "client_id", "method", "params", "result"] {
        assert_eq!(read.get(key), None);
    }
}

fn nested(levels: usize) -> Json {
    let mut value = Json::Array(Vec::new());
    for _ in 1..levels {
        value = Json::Array(vec![value]);
    }
    value
}

#[test]
fn nesting_is_read_to_a_limit() {
    let text = WireMessage::ok("a", nested(126)).to_text();
    assert_eq!(Json::parse(&text).unwrap().get("result"), Some(&nested(126)));
    assert!(Json::parse(&WireMessage::ok("a", nested(127)).to_text()).is_err());
}

#[test]
fn greeting_registers() {
    match handle_conn(7, Phase::Handshake, hello(Some("extension"), Some("chrome"))) {
        (Phase::Open, Some(Effect::Tell(HubMsg::Register { conn_id: 7, role, name, client_id }))) => {
            assert_eq!(role, Role::Extension);
            assert_eq!(name, "chrome");
            assert_eq!(client_id, None);
        }
        other => panic!("{other:?}"),
    }
    match handle_conn(8, Phase::Handshake, hello(Some("client"), None)) {
        (Phase::Open, Some(Effect::Tell(HubMsg::Register { conn_id: 8, role, name, .. }))) => {
            assert_eq!(role, Role::Client);
            assert_eq!(name, "unnamed");
        }
        other => panic!("{other:?}"),
    }
}

#[test]
fn bad_greetings_are_refused() {
    assert_eq!(
        refused(hello(Some("boss"), None)),
        r#"{"error":"hello must declare role","type":"error"}"#
    );
    assert_eq!(
        refused(hello(None, None)),
        r#"{"error":"hello must declare role","type":"error"}"#
    );
    for kind in [None, Some("request".to_string())] {
        let mut msg = WireMessage::empty();
        msg.type_ = kind;
        msg.role = Some("client".to_string());
        msg.name = Some("x".to_string());
        assert_eq!(
            refused(Input::Arrived(Arrival::Message(msg))),
            r#"{"error":"expected hello message","type":"error"}"#
        );
    }
    assert_eq!(
        refused(Input::Arrived(Arrival::OtherFrame)),
        r#"{"error":"expected hello message","type":"error"}"#
    );
    assert_eq!(
        refused(Input::Arrived(Arrival::Gone)),
        r#"{"error":"expected hello message","type":"error"}"#
    );
    assert_eq!(
        refused(Input::Arrived(Arrival::Garbled("bad \"x\"".to_string()))),
        r#"{"error":"invalid hello: bad \"x\"","type":"error"}"#
    );
}

#[test]
fn session_ends_once() {
    let (phase, effect) =
        handle_conn(7, Phase::Open, Input::Arrived(Arrival::Message(request("a", "x", "{}"))));
    assert_eq!(phase, Phase::Open);
    assert!(matches!(effect, Some(Effect::Tell(HubMsg::Forward { conn_id: 7, .. }))));
    for input in [
        Input::Arrived(Arrival::Garbled("no".to_string())),
        Input::Arrived(Arrival::OtherFrame),
    ] {
        let (phase, effect) = handle_conn(7, Phase::Open, input);
        assert_eq!(phase, Phase::Open);
        assert!(effect.is_none());
    }
    for input in [Input::Arrived(Arrival::Gone), Input::WriteFailed, Input::LetGo] {
        let (phase, effect) = handle_conn(7, Phase::Open, input);
        assert_eq!(phase, Phase::Closed);
        assert!(matches!(effect, Some(Effect::Tell(HubMsg::Unregister { conn_id: 7 }))));
    }
    let (phase, effect) = handle_conn(7, Phase::Closed, Input::WriteFailed);
    assert_eq!(phase, Phase::Closed);
    assert!(effect.is_none());
}

#[test]
fn settings_are_read() {
    assert_eq!(listen_port(None), 9225);
    assert_eq!(listen_port(Some("9226")), 9226);
    assert_eq!(listen_port(Some("+80")), 80);
    assert_eq!(listen_port(Some("65536")), 9225);
    assert_eq!(listen_port(Some("-1")), 9225);
    assert_eq!(listen_port(Some("")), 9225);
    assert_eq!(listen_port(Some(" 80")), 9225);
    assert_eq!(idle_timeout(None), 0);
    assert_eq!(idle_timeout(Some("120")), 120);
    assert_eq!(idle_timeout(Some("18446744073709551616")), 0);
    assert_eq!(idle_timeout(Some("18446744073709551615")), u64::MAX);
    for text in ["", "+", "0", "007", "12a", "65535", "65536", "99999999999999999999999"] {
        assert_eq!(parse_number(text, 65535).map(|n| n as u16), text.parse::<u16>().ok());
    }
    for text in ["", "-", "+", "-+1", "--1", "0", "-0", "-12", "+12", "1.5", "12k",
        "9223372036854775807", "9223372036854775808", "-9223372036854775808",
        "-9223372036854775809"]
    {
        assert_eq!(parse_integer(text), text.parse::<i64>().ok(), "{text}");
    }
    assert_eq!(listen_addr(9225), "127.0.0.1:9225");
    assert_eq!(idle_note(0), "");
    assert_eq!(idle_note(120), "（空闲 120s 自动退出）");
}

#[test]
fn idle_server_exits_only_with_a_limit() {
    assert!(!idle_expired(0, u128::MAX));
    assert!(!idle_expired(2, 1_999_999_999));
    assert!(idle_expired(2, 2_000_000_000));
}
