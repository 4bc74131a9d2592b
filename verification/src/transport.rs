//! The client's side of the connection to the hub: dialling, starting the server
//! where it does not run, requests and their responses.
//!
//! What reads, writes and waits lies outside; here is what is written, how what
//! has been read is taken, and what is to be done next.
use vstd::prelude::*;

use crate::hub::EventView;
use crate::json::{
    bool_field, compact_text, field, field_or_null, object_text, outcome_view, parsed_text, put, text_field,
    Json, JsonView,
};
use crate::number::{law_decimal_is_read_back, lemma_decimal_value};
use crate::session::{session_next, ArrivalView, EffectView, InputView, Phase};
use crate::settings::port_setting;
use crate::text::{
    chars_of, decimal, decimal_text, law_numeral_injective, lemma_last_dash,
    lemma_numeral_dashless, opt_str, opt_text, same, split, split_text, text_of, texts,
};
use crate::wire::{
    empty_message, err_message, law_fields_are_found_again, lemma_field_names,
    lemma_readable_message, message_in, message_json, message_pairs, message_text, ok_message,
    readable_message, MessageView, Role,
};

verus! {

/// For how many nanoseconds a request waits for its response.
pub const RESPONSE_TIMEOUT_NANOS: u128 = 35_000_000_000;

/// After how many idle seconds a server that was started for the client exits.
pub const AUTO_SPAWN_IDLE_TIMEOUT: &'static str = "120";

/// For how many nanoseconds a server that was started may take to come up.
pub const STARTUP_NANOS: u128 = 5_000_000_000;

/// How many milliseconds lie between two attempts to reach a server that comes up.
pub const STARTUP_PAUSE_MILLIS: u64 = 200;

// ---------------------------------------------------------------------------
// Messages
// ---------------------------------------------------------------------------

/// The greeting of a client, with its identity where it has one.
pub open spec fn hello_view(client_id: Option<Seq<char>>) -> JsonView {
    let hello = Map::empty().insert("type"@, JsonView::Text("hello"@)).insert(
        "role"@,
        JsonView::Text("client"@),
    ).insert("name"@, JsonView::Text("bridge-client"@));
    JsonView::Object(
        match client_id {
            Some(id) => hello.insert("client_id"@, JsonView::Text(id)),
            None => hello,
        },
    )
}

/// The greeting of a client as the text that is sent.
pub fn hello_text(client_id: Option<&str>) -> (r: String)
    ensures
        r@ == compact_text(hello_view(opt_str(client_id))),
{
    let mut entries: Vec<(String, Json)> = Vec::new();
    put(&mut entries, "type", Json::text("hello"));
    put(&mut entries, "role", Json::text("client"));
    put(&mut entries, "name", Json::text("bridge-client"));
    if let Some(id) = client_id {
        put(&mut entries, "client_id", Json::text(id));
    }
    Json::Object(entries).to_text()
}

/// A request.
pub open spec fn request_view(id: Seq<char>, method: Seq<char>, params: JsonView) -> JsonView {
    JsonView::Object(
        Map::empty().insert("id"@, JsonView::Text(id)).insert(
            "method"@,
            JsonView::Text(method),
        ).insert("params"@, params),
    )
}

/// A request as the text that is sent.
pub fn request(id: &str, method: &str, params: Json) -> (r: String)
    ensures
        r@ == compact_text(request_view(id@, method@, params@)),
{
    let mut entries: Vec<(String, Json)> = Vec::new();
    put(&mut entries, "id", Json::text(id));
    put(&mut entries, "method", Json::text(method));
    put(&mut entries, "params", params);
    Json::Object(entries).to_text()
}

/// A client greets as one: the hub takes the greeting for that of a client, with the
/// identity that the client has, or with none.
pub proof fn law_greeting_of_a_client(conn_id: u64, client_id: Option<Seq<char>>)
    ensures
        session_next(
            conn_id,
            Phase::Handshake,
            InputView::Arrived(ArrivalView::Message(message_in(hello_view(client_id)))),
        ) == (
            Phase::Open,
            Some(
                EffectView::Tell(
                    EventView::Register {
                        conn_id,
                        role: Role::Client,
                        name: "bridge-client"@,
                        client_id,
                    },
                ),
            ),
        ),
{
    lemma_field_names();
    reveal_strlit("client");
    reveal_strlit("extension");
    assert("client"@.len() == 6 && "extension"@.len() == 9);
}

/// A request is read as what was asked for: its id, its method and its parameters, and
/// nothing else. Parameters that are `null` count as none.
pub proof fn law_request_says_what_is_asked_for(
    id: Seq<char>,
    method: Seq<char>,
    params: JsonView,
)
    ensures
        message_in(request_view(id, method, params)) == (MessageView {
            id: Some(id),
            method: Some(method),
            params: if params is Null {
                None
            } else {
                Some(params)
            },
            ..empty_message()
        }),
        field(request_view(id, method, params), "params"@) == Some(params),
{
    lemma_field_names();
}

/// The id under which a request travels: its label, the process and a number
/// that no other request of the process has.
pub open spec fn wire_id_text(label: Seq<char>, pid: u32, seq: u64) -> Seq<char> {
    label + "-"@ + decimal(pid as nat) + "-"@ + decimal(seq as nat)
}

/// The id under which a request travels.
pub fn wire_id(label: &str, pid: u32, seq: u64) -> (r: String)
    ensures
        r@ == wire_id_text(label@, pid, seq),
{
    let mut out = label.to_owned();
    out.append("-");
    out.append(decimal_text(pid as u64).as_str());
    out.append("-");
    out.append(decimal_text(seq).as_str());
    out
}

/// The ids that one process gives its requests.
#[derive(Debug)]
pub struct RequestIds {
    pid: u32,
    next: u64,
}

/// The mathematical form of the ids that one process gives its requests.
pub struct RequestIdsView {
    pub pid: u32,
    /// The number of the next request.
    pub next: u64,
}

impl View for RequestIds {
    type V = RequestIdsView;

    closed spec fn view(&self) -> RequestIdsView {
        RequestIdsView { pid: self.pid, next: self.next }
    }
}

/// The number after a number; after the greatest one, the count begins again.
pub open spec fn number_after(n: u64) -> u64 {
    if n == u64::MAX {
        0
    } else {
        (n + 1) as u64
    }
}

impl RequestIds {
    /// The ids of a process that has sent nothing yet.
    pub fn new(pid: u32) -> (r: RequestIds)
        ensures
            r@ == (RequestIdsView { pid, next: 0 }),
    {
        RequestIds { pid, next: 0 }
    }

    /// The id of the next request.
    pub fn issue(&mut self, label: &str) -> (r: String)
        ensures
            r@ == wire_id_text(label@, old(self)@.pid, old(self)@.next),
            final(self)@ == (RequestIdsView {
                pid: old(self)@.pid,
                next: number_after(old(self)@.next),
            }),
    {
        let id = wire_id(label, self.pid, self.next);
        self.next = if self.next == u64::MAX {
            0
        } else {
            self.next + 1
        };
        id
    }
}

/// The ids that the requests with some labels get, one after the other.
pub open spec fn issued(ids: RequestIdsView, labels: Seq<Seq<char>>) -> Seq<Seq<char>>
    decreases labels.len(),
{
    if labels.len() == 0 {
        Seq::empty()
    } else {
        seq![wire_id_text(labels[0], ids.pid, ids.next)] + issued(
            RequestIdsView { pid: ids.pid, next: number_after(ids.next) },
            labels.drop_first(),
        )
    }
}

/// The number of a request among those of a process that began at `start`.
pub open spec fn nth_number(start: u64, n: int) -> int {
    if start + n <= u64::MAX {
        start + n
    } else {
        start + n - u64::MAX - 1
    }
}

proof fn lemma_issued(ids: RequestIdsView, labels: Seq<Seq<char>>, i: int)
    requires
        0 <= i < labels.len() <= u64::MAX + 1,
    ensures
        issued(ids, labels).len() == labels.len(),
        0 <= nth_number(ids.next, i) <= u64::MAX,
        issued(ids, labels)[i] == wire_id_text(
            labels[i],
            ids.pid,
            nth_number(ids.next, i) as u64,
        ),
    decreases labels.len(),
{
    let rest = labels.drop_first();
    let after = RequestIdsView { pid: ids.pid, next: number_after(ids.next) };
    if rest.len() > 0 {
        lemma_issued(
            after,
            rest,
            if i > 0 {
                i - 1
            } else {
                0
            },
        );
    } else {
        assert(issued(after, rest).len() == 0);
    }
    if i > 0 {
        assert(issued(ids, labels)[i] == issued(after, rest)[i - 1]);
        assert(rest[i - 1] == labels[i]);
        assert(nth_number(after.next, i - 1) == nth_number(ids.next, i));
    }
}

/// No two requests of a process travel under the same id, whatever their labels
/// are, as long as the count has not begun again.
pub proof fn law_requests_of_a_process_differ(
    ids: RequestIdsView,
    labels: Seq<Seq<char>>,
    i: int,
    j: int,
)
    requires
        0 <= i < j < labels.len() <= u64::MAX + 1,
    ensures
        issued(ids, labels)[i] != issued(ids, labels)[j],
{
    lemma_issued(ids, labels, i);
    lemma_issued(ids, labels, j);
    if issued(ids, labels)[i] == issued(ids, labels)[j] {
        law_wire_ids_differ(
            labels[i],
            ids.pid,
            nth_number(ids.next, i) as u64,
            labels[j],
            ids.pid,
            nth_number(ids.next, j) as u64,
        );
    }
}

/// No two requests travel under the same id: not two of one process, and not
/// those of two processes, whatever their labels are.
pub proof fn law_wire_ids_differ(
    label_a: Seq<char>,
    pid_a: u32,
    seq_a: u64,
    label_b: Seq<char>,
    pid_b: u32,
    seq_b: u64,
)
    requires
        wire_id_text(label_a, pid_a, seq_a) == wire_id_text(label_b, pid_b, seq_b),
    ensures
        label_a == label_b,
        pid_a == pid_b,
        seq_a == seq_b,
{
    reveal_strlit("-");
    assert("-"@ =~= seq!['-']);
    let front_a = label_a + "-"@ + decimal(pid_a as nat);
    let front_b = label_b + "-"@ + decimal(pid_b as nat);
    lemma_numeral_dashless(pid_a as nat, 10);
    lemma_numeral_dashless(pid_b as nat, 10);
    lemma_numeral_dashless(seq_a as nat, 10);
    lemma_numeral_dashless(seq_b as nat, 10);
    lemma_last_dash(front_a, decimal(seq_a as nat), front_b, decimal(seq_b as nat));
    lemma_last_dash(label_a, decimal(pid_a as nat), label_b, decimal(pid_b as nat));
    law_numeral_injective(pid_a as nat, pid_b as nat, 10);
    law_numeral_injective(seq_a as nat, seq_b as nat, 10);
}

// ---------------------------------------------------------------------------
// Responses
// ---------------------------------------------------------------------------

/// What comes in while a request waits for its response.
#[derive(Debug)]
pub enum Incoming {
    /// A text frame.
    Text(String),
    /// A frame of another kind.
    OtherFrame,
    /// The connection is closed.
    Closed,
    /// Reading or writing failed.
    Failed(String),
    /// The time is up.
    TimeUp,
}

/// The mathematical form of what comes in.
pub enum IncomingView {
    Text(Seq<char>),
    OtherFrame,
    Closed,
    Failed(Seq<char>),
    TimeUp,
}

impl View for Incoming {
    type V = IncomingView;

    open spec fn view(&self) -> IncomingView {
        match self {
            Incoming::Text(text) => IncomingView::Text(text@),
            Incoming::OtherFrame => IncomingView::OtherFrame,
            Incoming::Closed => IncomingView::Closed,
            Incoming::Failed(error) => IncomingView::Failed(error@),
            Incoming::TimeUp => IncomingView::TimeUp,
        }
    }
}

/// The view of an outcome that may still be open.
pub open spec fn opt_outcome(r: Option<Result<Json, String>>) -> Option<
    Result<JsonView, Seq<char>>,
> {
    match r {
        Some(r) => Some(outcome_view(r)),
        None => None,
    }
}

/// How an attempt at a request ended.
#[derive(Debug)]
pub enum Attempt {
    /// With an outcome that stands: an answer, an unreadable frame, or no answer
    /// in time.
    Over(Result<Json, String>),
    /// With a broken connection.
    Broken(String),
}

/// The mathematical form of how an attempt ended.
pub enum AttemptView {
    Over(Result<JsonView, Seq<char>>),
    Broken(Seq<char>),
}

impl View for Attempt {
    type V = AttemptView;

    open spec fn view(&self) -> AttemptView {
        match self {
            Attempt::Over(outcome) => AttemptView::Over(outcome_view(*outcome)),
            Attempt::Broken(error) => AttemptView::Broken(error@),
        }
    }
}

/// The view of an attempt that may still be open.
pub open spec fn opt_attempt(a: Option<Attempt>) -> Option<AttemptView> {
    match a {
        Some(a) => Some(a@),
        None => None,
    }
}

/// How a read response is taken by the request with an id: not at all where it
/// carries another id, else as a result or as an error.
pub open spec fn response_outcome(id: Seq<char>, resp: JsonView) -> Option<
    Result<JsonView, Seq<char>>,
> {
    if text_field(resp, "id"@) != Some(id) {
        None
    } else if bool_field(resp, "success"@) == Some(true) {
        Some(Ok(field_or_null(resp, "result"@)))
    } else {
        Some(
            Err(
                match text_field(resp, "error"@) {
                    Some(error) => error,
                    None => "unknown error"@,
                },
            ),
        )
    }
}

/// How a text frame is taken, given what was read in it.
pub open spec fn frame_outcome(id: Seq<char>, read: Result<JsonView, Seq<char>>) -> Option<
    Result<JsonView, Seq<char>>,
> {
    match read {
        Ok(resp) => response_outcome(id, resp),
        Err(reason) => Some(Err("响应解析失败: "@ + reason)),
    }
}

/// How what comes in is taken by the request with an id; `None` where the request
/// goes on waiting.
pub open spec fn request_outcome(id: Seq<char>, incoming: IncomingView) -> Option<AttemptView> {
    match incoming {
        IncomingView::Text(text) => match frame_outcome(id, parsed_text(text)) {
            Some(outcome) => Some(AttemptView::Over(outcome)),
            None => None,
        },
        IncomingView::OtherFrame => None,
        IncomingView::Closed => Some(AttemptView::Broken("连接已关闭"@)),
        IncomingView::Failed(error) => Some(AttemptView::Broken(error)),
        IncomingView::TimeUp => Some(AttemptView::Over(Err("等待响应超时"@))),
    }
}

/// A request waits on for its own response: those of other requests, and frames
/// that are no text, do not end it.
pub proof fn law_only_its_own_response(id: Seq<char>, resp: JsonView)
    ensures
        request_outcome(id, IncomingView::OtherFrame) is None,
        frame_outcome(id, Ok(resp)) is None <==> text_field(resp, "id"@) != Some(id),
{
}

/// Takes what was read in a text frame.
pub fn take_frame(id: &str, read: Result<Json, String>) -> (r: Option<Result<Json, String>>)
    ensures
        opt_outcome(r) == frame_outcome(id@, outcome_view(read)),
{
    match read {
        Ok(resp) => {
            let mine = match resp.get_str("id") {
                Some(other) => same(other, id),
                None => false,
            };
            if !mine {
                return None;
            }
            let succeeded = match resp.get_bool("success") {
                Some(b) => b,
                None => false,
            };
            if succeeded {
                Some(Ok(resp.get_or_null("result")))
            } else {
                match resp.get_str("error") {
                    Some(error) => Some(Err(error.to_owned())),
                    None => Some(Err("unknown error".to_owned())),
                }
            }
        },
        Err(reason) => {
            let mut error = "响应解析失败: ".to_owned();
            error.append(reason.as_str());
            Some(Err(error))
        },
    }
}

/// What a message means for the request with an id.
pub open spec fn message_outcome(id: Seq<char>, m: MessageView) -> Option<AttemptView> {
    match response_outcome(id, message_json(m)) {
        Some(outcome) => Some(AttemptView::Over(outcome)),
        None => None,
    }
}

/// Takes what comes in while the request with an id waits. What the hub sends as
/// the text of a message is taken as the message that it is.
pub fn receive(id: &str, incoming: Incoming) -> (r: Option<Attempt>)
    ensures
        opt_attempt(r) == request_outcome(id@, incoming@),
        forall|m: MessageView|
            incoming@ == IncomingView::Text(#[trigger] message_text(m)) && readable_message(m)
                ==> opt_attempt(r) == message_outcome(id@, m),
{
    match incoming {
        Incoming::Text(text) => {
            let read = Json::parse(text.as_str());
            proof {
                assert forall|m: MessageView|
                    text@ == #[trigger] message_text(m) && readable_message(m) implies outcome_view(
                    read,
                ) == Ok::<JsonView, Seq<char>>(message_json(m)) by {
                    lemma_readable_message(m);
                    assert(text@ == object_text(message_pairs(m)));
                }
            }
            match take_frame(id, read) {
                Some(outcome) => Some(Attempt::Over(outcome)),
                None => None,
            }
        },
        Incoming::OtherFrame => None,
        Incoming::Closed => Some(Attempt::Broken("连接已关闭".to_owned())),
        Incoming::Failed(error) => Some(Attempt::Broken(error)),
        Incoming::TimeUp => Some(Attempt::Over(Err("等待响应超时".to_owned()))),
    }
}

/// How a response is taken: not at all where it bears another id or none; as its
/// result, or `null`, where it is a success; else as its error.
pub proof fn law_responses(id: Seq<char>, resp: JsonView)
    ensures
        field(resp, "id"@) != Some(JsonView::Text(id)) ==> response_outcome(id, resp) is None,
        field(resp, "id"@) == Some(JsonView::Text(id)) ==> response_outcome(id, resp) == Some(
            if field(resp, "success"@) == Some(JsonView::Bool(true)) {
                Ok::<JsonView, Seq<char>>(
                    match field(resp, "result"@) {
                        Some(v) => v,
                        None => JsonView::Null,
                    },
                )
            } else {
                Err::<JsonView, Seq<char>>(
                    match field(resp, "error"@) {
                        Some(JsonView::Text(error)) => error,
                        _ => "unknown error"@,
                    },
                )
            },
        ),
{
}

/// What ends a request without a response: a connection that breaks, which is not the
/// end of it, and the time that is up or a text that cannot be read, which are.
pub proof fn law_ends_without_a_response(id: Seq<char>, text: Seq<char>, error: Seq<char>)
    ensures
        request_outcome(id, IncomingView::Closed) == Some(AttemptView::Broken("连接已关闭"@)),
        request_outcome(id, IncomingView::Failed(error)) == Some(AttemptView::Broken(error)),
        request_outcome(id, IncomingView::TimeUp) == Some(
            AttemptView::Over(Err("等待响应超时"@)),
        ),
        request_outcome(id, IncomingView::OtherFrame) is None,
        parsed_text(text) matches Err(reason) ==> request_outcome(id, IncomingView::Text(text))
            == Some(AttemptView::Over(Err("响应解析失败: "@ + reason))),
        parsed_text(text) matches Ok(resp) ==> request_outcome(id, IncomingView::Text(text))
            == match response_outcome(id, resp) {
            Some(outcome) => Some(AttemptView::Over(outcome)),
            None => None,
        },
{
}

/// A client understands what the hub and the extension answer: a result is handed
/// over as it is, and so is the text of an error.
pub proof fn law_answers_are_understood(id: Seq<char>, result: JsonView, error: Seq<char>)
    ensures
        response_outcome(id, message_json(ok_message(id, result))) == Some(
            Ok::<JsonView, Seq<char>>(result),
        ),
        response_outcome(id, message_json(err_message(id, error))) == Some(
            Err::<JsonView, Seq<char>>(error),
        ),
{
    law_fields_are_found_again(ok_message(id, result));
    law_fields_are_found_again(err_message(id, error));
}

/// How many nanoseconds of waiting are left.
pub fn time_left(waited_nanos: u128) -> (r: u128)
    ensures
        r == if waited_nanos < RESPONSE_TIMEOUT_NANOS {
            RESPONSE_TIMEOUT_NANOS - waited_nanos
        } else {
            0
        },
{
    if waited_nanos < RESPONSE_TIMEOUT_NANOS {
        RESPONSE_TIMEOUT_NANOS - waited_nanos
    } else {
        0
    }
}

// ---------------------------------------------------------------------------
// A client that reconnects
// ---------------------------------------------------------------------------

/// A client: the server it talks to, and the identity it has there.
#[derive(Debug)]
pub struct Bridge {
    server: String,
    client_id: String,
}

impl Bridge {
    /// The address of the server.
    pub closed spec fn server_spec(&self) -> Seq<char> {
        self.server@
    }

    /// The identity of the client.
    pub closed spec fn client_spec(&self) -> Seq<char> {
        self.client_id@
    }

    /// A client with the identity that the environment gives it, else `cli`.
    pub fn connect(server: &str, client_id: Option<&str>) -> (r: Bridge)
        ensures
            r.server_spec() == server@,
            r.client_spec() == match client_id {
                Some(id) => id@,
                None => "cli"@,
            },
    {
        match client_id {
            Some(id) => Bridge::connect_with_client_id(server, id),
            None => Bridge::connect_with_client_id(server, "cli"),
        }
    }

    /// A client with an identity of its own.
    pub fn connect_with_client_id(server: &str, client_id: &str) -> (r: Bridge)
        ensures
            r.server_spec() == server@,
            r.client_spec() == client_id@,
    {
        Bridge { server: server.to_owned(), client_id: client_id.to_owned() }
    }

    /// The address of the server.
    pub fn server(&self) -> (r: &str)
        ensures
            r@ == self.server_spec(),
    {
        self.server.as_str()
    }

    /// The identity of the client.
    pub fn client_id(&self) -> (r: &str)
        ensures
            r@ == self.client_spec(),
    {
        self.client_id.as_str()
    }

    /// Begins a request, under the next of the ids.
    pub fn request(&self, ids: &mut RequestIds, label: &str, method: &str, params: Json) -> (r:
        Exchange)
        ensures
            r@ == new_exchange(
                self.server_spec(),
                self.client_spec(),
                wire_id_text(label@, old(ids)@.pid, old(ids)@.next),
                method@,
                params@,
            ),
            final(ids)@ == (RequestIdsView {
                pid: old(ids)@.pid,
                next: number_after(old(ids)@.next),
            }),
    {
        let id = ids.issue(label);
        let text = request(id.as_str(), method, params);
        Exchange {
            server: self.server.clone(),
            client_id: self.client_id.clone(),
            id,
            text,
            stage: Stage::First,
        }
    }
}

/// A request that has been sent once.
pub open spec fn new_exchange(
    server: Seq<char>,
    client_id: Seq<char>,
    id: Seq<char>,
    method: Seq<char>,
    params: JsonView,
) -> ExchangeView {
    ExchangeView {
        server,
        client_id,
        id,
        text: compact_text(request_view(id, method, params)),
        stage: Stage::First,
    }
}

/// A request keeps the server, the identity and the id that it was begun with, and what
/// is sent for it is the text of what was asked for under that id.
pub proof fn law_new_request(
    server: Seq<char>,
    client_id: Seq<char>,
    id: Seq<char>,
    method: Seq<char>,
    params: JsonView,
)
    ensures
        ({
            let x = new_exchange(server, client_id, id, method, params);
            &&& x.server == server && x.client_id == client_id && x.id == id && x.stage is First
            &&& exists|asked: JsonView| #[trigger]
                compact_text(asked) == x.text && field(asked, "id"@) == Some(JsonView::Text(id))
                    && field(asked, "method"@) == Some(JsonView::Text(method)) && field(
                    asked,
                    "params"@,
                ) == Some(params)
        }),
{
    lemma_field_names();
    let asked = request_view(id, method, params);
    assert(compact_text(asked) == new_exchange(server, client_id, id, method, params).text);
}

/// The label of a request stands at the beginning of the id under which it travels.
pub proof fn law_label_is_kept(label: Seq<char>, pid: u32, seq: u64)
    ensures
        wire_id_text(label, pid, seq).len() > label.len(),
        wire_id_text(label, pid, seq).take(label.len() as int) == label,
        wire_id_text(label, pid, seq)[label.len() as int] == '-',
{
    reveal_strlit("-");
    assert(wire_id_text(label, pid, seq).take(label.len() as int) =~= label);
}

/// How far a request is.
#[derive(Debug, Clone, Copy, PartialEq, Eq, Structural)]
pub enum Stage {
    /// Sent once.
    First,
    /// Failed once; the connection is made anew.
    Reconnecting,
    /// Sent a second time.
    Second,
    /// Over.
    Over,
}

/// A request on its way: what is sent, at most twice, until there is an outcome.
#[derive(Debug)]
pub struct Exchange {
    server: String,
    client_id: String,
    id: String,
    text: String,
    stage: Stage,
}

/// The mathematical form of a request on its way.
pub struct ExchangeView {
    pub server: Seq<char>,
    pub client_id: Seq<char>,
    pub id: Seq<char>,
    pub text: Seq<char>,
    pub stage: Stage,
}

impl View for Exchange {
    type V = ExchangeView;

    closed spec fn view(&self) -> ExchangeView {
        ExchangeView {
            server: self.server@,
            client_id: self.client_id@,
            id: self.id@,
            text: self.text@,
            stage: self.stage,
        }
    }
}

/// What is to be done for a request.
#[derive(Debug)]
pub enum Next {
    /// Make the connection anew, to the same server and with the same identity.
    Reconnect { server: String, client_id: String },
    /// Send a text.
    Send(String),
    /// Hand the outcome over.
    Finish(Result<Json, String>),
}

/// The mathematical form of what is to be done for a request.
pub enum NextView {
    Reconnect { server: Seq<char>, client_id: Seq<char> },
    Send(Seq<char>),
    Finish(Result<JsonView, Seq<char>>),
}

impl View for Next {
    type V = NextView;

    open spec fn view(&self) -> NextView {
        match self {
            Next::Reconnect { server, client_id } => NextView::Reconnect {
                server: server@,
                client_id: client_id@,
            },
            Next::Send(text) => NextView::Send(text@),
            Next::Finish(outcome) => NextView::Finish(outcome_view(*outcome)),
        }
    }
}

/// What follows an attempt: where the connection broke for the first time, the
/// client reconnects; anything else is final, an answered error included.
pub open spec fn after_attempt(x: ExchangeView, attempt: AttemptView) -> (ExchangeView, NextView) {
    let over = ExchangeView { stage: Stage::Over, ..x };
    match attempt {
        AttemptView::Over(outcome) => (over, NextView::Finish(outcome)),
        AttemptView::Broken(error) => if x.stage is First {
            (
                ExchangeView { stage: Stage::Reconnecting, ..x },
                NextView::Reconnect { server: x.server, client_id: x.client_id },
            )
        } else {
            (over, NextView::Finish(Err(error)))
        },
    }
}

/// What follows an attempt to reconnect: the same text again, or the error.
pub open spec fn after_reconnect(x: ExchangeView, error: Option<Seq<char>>) -> (
    ExchangeView,
    NextView,
) {
    match error {
        None => (ExchangeView { stage: Stage::Second, ..x }, NextView::Send(x.text)),
        Some(e) => (ExchangeView { stage: Stage::Over, ..x }, NextView::Finish(Err(e))),
    }
}

impl Exchange {
    /// The id under which the request travels.
    pub fn id(&self) -> (r: &str)
        ensures
            r@ == self@.id,
    {
        self.id.as_str()
    }

    /// The text that is sent.
    pub fn text(&self) -> (r: &str)
        ensures
            r@ == self@.text,
    {
        self.text.as_str()
    }

    /// Takes the end of an attempt.
    pub fn attempted(&mut self, attempt: Attempt) -> (r: Next)
        requires
            old(self)@.stage is First || old(self)@.stage is Second,
        ensures
            (final(self)@, r@) == after_attempt(old(self)@, attempt@),
    {
        match attempt {
            Attempt::Over(outcome) => {
                self.stage = Stage::Over;
                Next::Finish(outcome)
            },
            Attempt::Broken(error) => match self.stage {
                Stage::First => {
                    self.stage = Stage::Reconnecting;
                    Next::Reconnect {
                        server: self.server.clone(),
                        client_id: self.client_id.clone(),
                    }
                },
                _ => {
                    self.stage = Stage::Over;
                    Next::Finish(Err(error))
                },
            },
        }
    }

    /// Takes the end of an attempt to reconnect, with its error if it failed.
    pub fn reconnected(&mut self, error: Option<String>) -> (r: Next)
        requires
            old(self)@.stage is Reconnecting,
        ensures
            (final(self)@, r@) == after_reconnect(old(self)@, opt_text(error)),
    {
        match error {
            None => {
                self.stage = Stage::Second;
                Next::Send(self.text.clone())
            },
            Some(e) => {
                self.stage = Stage::Over;
                Next::Finish(Err(e))
            },
        }
    }
}

/// What happens to a request on its way.
pub enum ExchangeEvent {
    /// An attempt has ended.
    Attempted(AttemptView),
    /// An attempt to reconnect has ended, with its error if it failed.
    Reconnected(Option<Seq<char>>),
}

/// What a request on its way does about an event; nothing about one that it does
/// not wait for.
pub open spec fn exchange_next(x: ExchangeView, event: ExchangeEvent) -> (
    ExchangeView,
    Option<NextView>,
) {
    match (x.stage, event) {
        (Stage::Reconnecting, ExchangeEvent::Reconnected(error)) => {
            let (y, next) = after_reconnect(x, error);
            (y, Some(next))
        },
        (Stage::First, ExchangeEvent::Attempted(attempt)) => {
            let (y, next) = after_attempt(x, attempt);
            (y, Some(next))
        },
        (Stage::Second, ExchangeEvent::Attempted(attempt)) => {
            let (y, next) = after_attempt(x, attempt);
            (y, Some(next))
        },
        _ => (x, None),
    }
}

/// A request over several events: how far it is, and what was done, from its
/// first sending on.
pub open spec fn exchange_run(x: ExchangeView, events: Seq<ExchangeEvent>) -> (
    ExchangeView,
    Seq<NextView>,
)
    decreases events.len(),
{
    if events.len() == 0 {
        (x, seq![NextView::Send(x.text)])
    } else {
        let (y, done) = exchange_run(x, events.drop_last());
        let (z, next) = exchange_next(y, events.last());
        (
            z,
            match next {
                Some(step) => done.push(step),
                None => done,
            },
        )
    }
}

/// Whatever happens to a request, it is sent once, or a second time, with the same
/// text, after one reconnection to the same server with the same identity; and it
/// ends with one outcome. (What is done is listed from the first sending on.)
pub proof fn law_sent_at_most_twice(x: ExchangeView, events: Seq<ExchangeEvent>)
    requires
        x.stage is First,
    ensures
        ({
            let (y, done) = exchange_run(x, events);
            let send = NextView::Send(x.text);
            let reconnect = NextView::Reconnect { server: x.server, client_id: x.client_id };
            &&& y == ExchangeView { stage: y.stage, ..x }
            &&& match y.stage {
                Stage::First => done == seq![send],
                Stage::Reconnecting => done == seq![send, reconnect],
                Stage::Second => done == seq![send, reconnect, send],
                Stage::Over => {
                    &&& done.last() is Finish
                    &&& {
                        ||| done.drop_last() == seq![send]
                        ||| done.drop_last() == seq![send, reconnect]
                        ||| done.drop_last() == seq![send, reconnect, send]
                    }
                },
            }
        }),
    decreases events.len(),
{
    if events.len() > 0 {
        law_sent_at_most_twice(x, events.drop_last());
        let (y, done) = exchange_run(x, events.drop_last());
        let (z, next) = exchange_next(y, events.last());
        let send = NextView::Send(x.text);
        let reconnect = NextView::Reconnect { server: x.server, client_id: x.client_id };
        if let Some(step) = next {
            assert(done.push(step).drop_last() =~= done);
            assert(seq![send].push(reconnect) =~= seq![send, reconnect]);
            assert(seq![send, reconnect].push(send) =~= seq![send, reconnect, send]);
        }
    }
}

/// An answer is final, be it a result or an error: a request that was answered is
/// not sent again.
pub proof fn law_answered_is_not_sent_again(
    x: ExchangeView,
    answer: Result<JsonView, Seq<char>>,
    later: Seq<ExchangeEvent>,
)
    requires
        x.stage is First,
    ensures
        exchange_run(x, seq![ExchangeEvent::Attempted(AttemptView::Over(answer))] + later).1 == seq![
            NextView::Send(x.text),
            NextView::Finish(answer),
        ],
        exchange_run(x, seq![ExchangeEvent::Attempted(AttemptView::Over(answer))] + later).0.stage
            is Over,
    decreases later.len(),
{
    let first = ExchangeEvent::Attempted(AttemptView::Over(answer));
    let all = seq![first] + later;
    if later.len() == 0 {
        assert(all.drop_last() =~= Seq::<ExchangeEvent>::empty());
        assert(all.last() == first);
        reveal_with_fuel(exchange_run, 2);
        assert(seq![NextView::Send(x.text)].push(NextView::Finish(answer)) =~= seq![
            NextView::Send(x.text),
            NextView::Finish(answer),
        ]);
    } else {
        law_answered_is_not_sent_again(x, answer, later.drop_last());
        assert(all.drop_last() =~= seq![first] + later.drop_last());
    }
}

/// A connection that breaks is made anew once, to the same server with the same
/// identity, and the same text is sent again; what comes then is the outcome, whatever
/// it is. Where the connection cannot be made anew, that is the outcome.
pub proof fn law_broken_connection_is_made_anew(
    x: ExchangeView,
    error: Seq<char>,
    second: AttemptView,
    refused: Seq<char>,
)
    requires
        x.stage is First,
    ensures
        ({
            let (reconnecting, step) = exchange_next(
                x,
                ExchangeEvent::Attempted(AttemptView::Broken(error)),
            );
            let (again, sent) = exchange_next(reconnecting, ExchangeEvent::Reconnected(None));
            &&& step == Some(NextView::Reconnect { server: x.server, client_id: x.client_id })
            &&& sent == Some(NextView::Send(x.text))
            &&& exchange_next(reconnecting, ExchangeEvent::Reconnected(Some(refused))).1 == Some(
                NextView::Finish(Err(refused)),
            )
            &&& exchange_next(again, ExchangeEvent::Attempted(second)).1 == Some(
                NextView::Finish(
                    match second {
                        AttemptView::Over(outcome) => outcome,
                        AttemptView::Broken(e) => Err(e),
                    },
                ),
            )
        }),
{
}

// ---------------------------------------------------------------------------
// Dialling
// ---------------------------------------------------------------------------

/// How far the making of a connection is.
#[derive(Debug)]
pub enum Dial {
    /// The first attempt.
    Trying,
    /// The server is being started, after the first attempt failed.
    Starting { first_error: String },
    /// The server has been started and is coming up.
    ComingUp,
    /// The greeting is being sent.
    Greeting,
    /// Over.
    Over,
}

/// The mathematical form of how far the making of a connection is.
pub enum DialView {
    Trying,
    Starting { first_error: Seq<char> },
    ComingUp,
    Greeting,
    Over,
}

impl View for Dial {
    type V = DialView;

    open spec fn view(&self) -> DialView {
        match self {
            Dial::Trying => DialView::Trying,
            Dial::Starting { first_error } => DialView::Starting { first_error: first_error@ },
            Dial::ComingUp => DialView::ComingUp,
            Dial::Greeting => DialView::Greeting,
            Dial::Over => DialView::Over,
        }
    }
}

/// What is to be done to make a connection.
#[derive(Debug)]
pub enum DialStep {
    /// Start the server, and say whether that worked.
    StartServer,
    /// Try to connect at once.
    Connect,
    /// Wait a little, then try to connect.
    PauseAndConnect,
    /// Send the greeting.
    Greet(String),
    /// The connection stands.
    Ready,
    /// Give up.
    Fail(String),
}

/// The mathematical form of what is to be done to make a connection.
pub enum DialStepView {
    StartServer,
    Connect,
    PauseAndConnect,
    Greet(Seq<char>),
    Ready,
    Fail(Seq<char>),
}

impl View for DialStep {
    type V = DialStepView;

    open spec fn view(&self) -> DialStepView {
        match self {
            DialStep::StartServer => DialStepView::StartServer,
            DialStep::Connect => DialStepView::Connect,
            DialStep::PauseAndConnect => DialStepView::PauseAndConnect,
            DialStep::Greet(text) => DialStepView::Greet(text@),
            DialStep::Ready => DialStepView::Ready,
            DialStep::Fail(error) => DialStepView::Fail(error@),
        }
    }
}

/// The error of a first attempt after which the server could not be started
/// either.
pub open spec fn start_failed_text(
    server: Seq<char>,
    first_error: Seq<char>,
    start_error: Seq<char>,
) -> Seq<char> {
    "无法连接 "@ + server + "（server 是否在运行？）: "@ + first_error + "；自动启动失败: "@ + start_error
}

/// The error of a server that was started and does not come up.
pub open spec fn not_up_text(server: Seq<char>, error: Seq<char>) -> Seq<char> {
    "自动启动 bridge-server 后仍无法连接 "@ + server + ": "@ + error
}

/// What follows the last step towards a connection. `error` is that of the step
/// where it failed, and `since_start` how many nanoseconds ago the server was
/// started.
pub open spec fn dial_next(
    server: Seq<char>,
    client_id: Seq<char>,
    dial: DialView,
    error: Option<Seq<char>>,
    since_start: u128,
) -> (DialView, DialStepView) {
    let greet = (
        DialView::Greeting,
        DialStepView::Greet(compact_text(hello_view(Some(client_id)))),
    );
    match (dial, error) {
        (DialView::Trying, None) => greet,
        (DialView::Trying, Some(e)) => (
            DialView::Starting { first_error: e },
            DialStepView::StartServer,
        ),
        (DialView::Starting { first_error }, None) => (DialView::ComingUp, DialStepView::Connect),
        (DialView::Starting { first_error }, Some(e)) => (
            DialView::Over,
            DialStepView::Fail(start_failed_text(server, first_error, e)),
        ),
        (DialView::ComingUp, None) => greet,
        (DialView::ComingUp, Some(e)) => if since_start >= STARTUP_NANOS {
            (DialView::Over, DialStepView::Fail(not_up_text(server, e)))
        } else {
            (DialView::ComingUp, DialStepView::PauseAndConnect)
        },
        (DialView::Greeting, None) => (DialView::Over, DialStepView::Ready),
        (DialView::Greeting, Some(e)) => (DialView::Over, DialStepView::Fail(e)),
        (DialView::Over, _) => (DialView::Over, DialStepView::Ready),
    }
}

/// Says what follows the last step towards a connection. The first step is to
/// connect, in the state `Trying`.
pub fn connect_bridge(
    server: &str,
    client_id: &str,
    dial: Dial,
    error: Option<String>,
    since_start: u128,
) -> (r: (Dial, DialStep))
    requires
        !(dial@ is Over),
    ensures
        (r.0@, r.1@) == dial_next(
            server@,
            client_id@,
            dial@,
            opt_text(error),
            since_start,
        ),
{
    match (dial, error) {
        (Dial::Trying, None) => (Dial::Greeting, DialStep::Greet(hello_text(Some(client_id)))),
        (Dial::Trying, Some(e)) => (Dial::Starting { first_error: e }, DialStep::StartServer),
        (Dial::Starting { first_error }, None) => (Dial::ComingUp, DialStep::Connect),
        (Dial::Starting { first_error }, Some(e)) => {
            let mut text = "无法连接 ".to_owned();
            text.append(server);
            text.append("（server 是否在运行？）: ");
            text.append(first_error.as_str());
            text.append("；自动启动失败: ");
            text.append(e.as_str());
            (Dial::Over, DialStep::Fail(text))
        },
        (Dial::ComingUp, None) => (Dial::Greeting, DialStep::Greet(hello_text(Some(client_id)))),
        (Dial::ComingUp, Some(e)) => if since_start >= STARTUP_NANOS {
            let mut text = "自动启动 bridge-server 后仍无法连接 ".to_owned();
            text.append(server);
            text.append(": ");
            text.append(e.as_str());
            (Dial::Over, DialStep::Fail(text))
        } else {
            (Dial::ComingUp, DialStep::PauseAndConnect)
        },
        (Dial::Greeting, None) => (Dial::Over, DialStep::Ready),
        (Dial::Greeting, Some(e)) => (Dial::Over, DialStep::Fail(e)),
        (Dial::Over, _) => (Dial::Over, DialStep::Ready),
    }
}

/// The server is started at most once for a connection, and only after the first
/// attempt has failed: nothing leads back to that attempt.
pub proof fn law_server_is_started_once(
    server: Seq<char>,
    client_id: Seq<char>,
    dial: DialView,
    error: Option<Seq<char>>,
    since_start: u128,
)
    ensures
        ({
            let (next, step) = dial_next(server, client_id, dial, error, since_start);
            &&& !(next is Trying)
            &&& step is StartServer <==> (dial is Trying && error is Some)
        }),
{
}

/// A connection is used only after its greeting has been sent, and the greeting
/// carries the identity of the client.
pub proof fn law_greeting_comes_first(
    server: Seq<char>,
    client_id: Seq<char>,
    dial: DialView,
    error: Option<Seq<char>>,
    since_start: u128,
)
    requires
        !(dial is Over),
    ensures
        ({
            let (next, step) = dial_next(server, client_id, dial, error, since_start);
            &&& step is Ready <==> (dial is Greeting && error is None)
            &&& step is Greet <==> next is Greeting
            &&& step matches DialStepView::Greet(text) ==> text == compact_text(
                hello_view(Some(client_id)),
            )
        }),
{
}

/// How a connection is made: where the server does not answer it is started, and tried
/// again and again for five seconds; a connection that stands is greeted on, and is
/// ready once the greeting has been sent. What went wrong is in the error.
pub proof fn law_dialling(
    server: Seq<char>,
    client_id: Seq<char>,
    first_error: Seq<char>,
    error: Seq<char>,
    since_start: u128,
)
    ensures
        dial_next(server, client_id, DialView::Trying, None, since_start).1 == DialStepView::Greet(
            compact_text(hello_view(Some(client_id))),
        ),
        dial_next(server, client_id, DialView::Trying, Some(error), since_start) == (
            DialView::Starting { first_error: error },
            DialStepView::StartServer,
        ),
        dial_next(server, client_id, DialView::Starting { first_error }, None, since_start) == (
            DialView::ComingUp,
            DialStepView::Connect,
        ),
        dial_next(
            server,
            client_id,
            DialView::Starting { first_error },
            Some(error),
            since_start,
        ) == (
            DialView::Over,
            DialStepView::Fail(
                "无法连接 "@ + server + "（server 是否在运行？）: "@ + first_error
                    + "；自动启动失败: "@ + error,
            ),
        ),
        dial_next(server, client_id, DialView::ComingUp, None, since_start).1 == DialStepView::Greet(
            compact_text(hello_view(Some(client_id))),
        ),
        dial_next(server, client_id, DialView::ComingUp, Some(error), since_start) == if since_start
            < 5_000_000_000 {
            (DialView::ComingUp, DialStepView::PauseAndConnect)
        } else {
            (
                DialView::Over,
                DialStepView::Fail(
                    "自动启动 bridge-server 后仍无法连接 "@ + server + ": "@ + error,
                ),
            )
        },
        dial_next(server, client_id, DialView::Greeting, None, since_start).1
            == DialStepView::Ready,
        dial_next(server, client_id, DialView::Greeting, Some(error), since_start) == (
            DialView::Over,
            DialStepView::Fail(error),
        ),
{
}

/// Nobody waits for a server longer than it may take to come up.
pub proof fn law_startup_is_limited(
    server: Seq<char>,
    client_id: Seq<char>,
    dial: DialView,
    error: Seq<char>,
    since_start: u128,
)
    requires
        dial is ComingUp,
        since_start >= STARTUP_NANOS,
    ensures
        dial_next(server, client_id, dial, Some(error), since_start) == (
            DialView::Over,
            DialStepView::Fail(not_up_text(server, error)),
        ),
{
}

/// The error of a plain attempt to connect, which starts no server.
pub fn connect_error(server: &str, error: &str) -> (r: String)
    ensures
        r@ == "无法连接 "@ + server@ + "（server 是否在运行？）: "@ + error@,
{
    let mut text = "无法连接 ".to_owned();
    text.append(server);
    text.append("（server 是否在运行？）: ");
    text.append(error);
    text
}

// ---------------------------------------------------------------------------
// The server to start
// ---------------------------------------------------------------------------

/// The text without the slashes at its end.
pub open spec fn without_end_slashes(s: Seq<char>) -> Seq<char>
    decreases s.len(),
{
    if s.len() > 0 && s.last() == '/' {
        without_end_slashes(s.drop_last())
    } else {
        s
    }
}

/// The port in an address `ws://host:port`: what follows its last colon, without
/// slashes at the end.
pub open spec fn port_text(server: Seq<char>) -> Seq<char> {
    without_end_slashes(split(server, ':').last())
}

/// The port in an address.
pub fn server_port(server: &str) -> (r: String)
    ensures
        r@ == port_text(server@),
{
    let parts = split_text(server, ':');
    let last = &parts[parts.len() - 1];
    proof {
        assert(texts(parts@).last() == last@);
    }
    let cs = chars_of(last.as_str());
    let mut to: usize = cs.len();
    assert(cs@ =~= cs@.subrange(0, to as int));
    while to > 0 && cs[to - 1] == '/'
        invariant
            to <= cs@.len(),
            without_end_slashes(cs@) == without_end_slashes(cs@.subrange(0, to as int)),
        decreases to,
    {
        assert(cs@.subrange(0, to as int).drop_last() =~= cs@.subrange(0, to - 1));
        to -= 1;
    }
    text_of(&cs, 0, to)
}

proof fn lemma_after_last_colon(a: Seq<char>, b: Seq<char>)
    requires
        forall|i: int| 0 <= i < b.len() ==> #[trigger] b[i] != ':',
    ensures
        split(a + seq![':'] + b, ':').last() == b,
    decreases b.len(),
{
    let s = a + seq![':'] + b;
    if b.len() > 0 {
        lemma_after_last_colon(a, b.drop_last());
        assert(s.drop_last() =~= a + seq![':'] + b.drop_last());
        assert(s.last() == b[b.len() - 1]);
        assert(b.drop_last().push(b.last()) =~= b);
    } else {
        assert(s.last() == ':');
        assert(b =~= Seq::<char>::empty());
    }
}

/// Slashes at the end of a text are cut off, however many there are.
proof fn lemma_end_slashes(s: Seq<char>, slashes: Seq<char>)
    requires
        s.len() > 0,
        s.last() != '/',
        forall|i: int| 0 <= i < slashes.len() ==> #[trigger] slashes[i] == '/',
    ensures
        without_end_slashes(s + slashes) == s,
    decreases slashes.len(),
{
    if slashes.len() > 0 {
        let rest = slashes.drop_last();
        assert forall|i: int| 0 <= i < rest.len() implies #[trigger] rest[i] == '/' by {
            assert(rest[i] == slashes[i]);
        }
        lemma_end_slashes(s, rest);
        assert((s + slashes).last() == slashes[slashes.len() - 1]);
        assert((s + slashes).drop_last() =~= s + rest);
    } else {
        assert(s + slashes =~= s);
    }
}

/// A server that is started for a client listens on the port at which the client
/// looks for it, however many slashes stand at the end of the address.
pub proof fn law_started_server_has_the_port(host: Seq<char>, port: u16, slashes: Seq<char>)
    requires
        forall|i: int| 0 <= i < slashes.len() ==> #[trigger] slashes[i] == '/',
    ensures
        port_text(host + seq![':'] + (decimal(port as nat) + slashes)) == decimal(port as nat),
        port_setting(
            Some(port_text(host + seq![':'] + (decimal(port as nat) + slashes))),
        ) == port,
{
    let d = decimal(port as nat);
    law_decimal_is_read_back(port as nat, 0xffff);
    lemma_decimal_value(port as nat);
    let b = d + slashes;
    assert forall|i: int| 0 <= i < b.len() implies #[trigger] b[i] != ':' by {
        if i < d.len() {
            assert(b[i] == d[i]);
        } else {
            assert(b[i] == slashes[i - d.len()]);
        }
    }
    lemma_after_last_colon(host, b);
    assert(d[d.len() - 1] != '/');
    lemma_end_slashes(d, slashes);
}

/// Where the server program is.
#[derive(Debug)]
pub enum ServerBinary {
    /// At a path.
    At(String),
    /// Beside the running program.
    Beside,
}

/// The mathematical form of where the server program is.
pub enum BinaryView {
    At(Seq<char>),
    Beside,
}

impl View for ServerBinary {
    type V = BinaryView;

    open spec fn view(&self) -> BinaryView {
        match self {
            ServerBinary::At(path) => BinaryView::At(path@),
            ServerBinary::Beside => BinaryView::Beside,
        }
    }
}

/// Which server program is started: the one that is named, if that exists; else
/// the first that exists of the one beside the running program and those in the
/// build directories; else whatever the search path has.
pub open spec fn chosen_binary(
    named: Option<(Seq<char>, bool)>,
    beside: bool,
    release: bool,
    debug: bool,
) -> Result<BinaryView, Seq<char>> {
    match named {
        Some((path, true)) => Ok(BinaryView::At(path)),
        Some((path, false)) => Err("BRIDGE_SERVER_BIN 指向的文件不存在: "@ + path),
        None => if beside {
            Ok(BinaryView::Beside)
        } else if release {
            Ok(BinaryView::At("target/release/bridge-server"@))
        } else if debug {
            Ok(BinaryView::At("target/debug/bridge-server"@))
        } else {
            Ok(BinaryView::At("bridge-server"@))
        },
    }
}

/// The program that is named is the only one that is started; without one, the places
/// are looked at in their order, and the search path comes last.
pub proof fn law_choice_of_the_server(
    path: Seq<char>,
    beside: bool,
    release: bool,
    debug: bool,
)
    ensures
        chosen_binary(Some((path, true)), beside, release, debug) == Ok::<BinaryView, Seq<char>>(
            BinaryView::At(path),
        ),
        chosen_binary(Some((path, false)), beside, release, debug) == Err::<BinaryView, Seq<char>>(
            "BRIDGE_SERVER_BIN 指向的文件不存在: "@ + path,
        ),
        chosen_binary(None, true, release, debug) == Ok::<BinaryView, Seq<char>>(
            BinaryView::Beside,
        ),
        chosen_binary(None, false, true, debug) == Ok::<BinaryView, Seq<char>>(
            BinaryView::At("target/release/bridge-server"@),
        ),
        chosen_binary(None, false, false, true) == Ok::<BinaryView, Seq<char>>(
            BinaryView::At("target/debug/bridge-server"@),
        ),
        chosen_binary(None, false, false, false) == Ok::<BinaryView, Seq<char>>(
            BinaryView::At("bridge-server"@),
        ),
{
}

/// Chooses the server program. `named` is the path that the environment gives,
/// with whether it exists; the others say which of the usual places have one.
pub fn server_binary_path(named: Option<(&str, bool)>, beside: bool, release: bool, debug: bool) -> (r:
    Result<ServerBinary, String>)
    ensures
        match r {
            Ok(bin) => Ok::<BinaryView, Seq<char>>(bin@),
            Err(e) => Err::<BinaryView, Seq<char>>(e@),
        } == chosen_binary(
            match named {
                Some((path, exists_there)) => Some((path@, exists_there)),
                None => None,
            },
            beside,
            release,
            debug,
        ),
{
    match named {
        Some((path, exists_there)) => if exists_there {
            Ok(ServerBinary::At(path.to_owned()))
        } else {
            let mut error = "BRIDGE_SERVER_BIN 指向的文件不存在: ".to_owned();
            error.append(path);
            Err(error)
        },
        None => if beside {
            Ok(ServerBinary::Beside)
        } else if release {
            Ok(ServerBinary::At("target/release/bridge-server".to_owned()))
        } else if debug {
            Ok(ServerBinary::At("target/debug/bridge-server".to_owned()))
        } else {
            Ok(ServerBinary::At("bridge-server".to_owned()))
        },
    }
}

} // verus!
