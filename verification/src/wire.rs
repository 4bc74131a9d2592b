//! The messages that travel between the hub, the extension and the clients.
use vstd::prelude::*;

use crate::json::{
    bool_field, field, object_text, opt_json, pair_text, pairs_map, put, readable,
    readable_pairs, text_field, Json, JsonView, Pairs,
};
use crate::params::with;
use crate::text::{join_texts, opt_str, opt_text, texts};

verus! {

/// What a connection declares itself to be.
#[derive(Debug, Clone, Copy, PartialEq, Eq, Structural)]
pub enum Role {
    /// The browser extension, which carries requests out.
    Extension,
    /// A sender of requests.
    Client,
}

/// A message: a greeting, a request or a response, told apart by the fields
/// that are there.
#[derive(Debug)]
pub struct WireMessage {
    pub id: Option<String>,
    pub type_: Option<String>,
    pub role: Option<String>,
    pub name: Option<String>,
    /// The identity of the client behind a request; the hub sets it on what it
    /// forwards.
    pub client_id: Option<String>,
    pub method: Option<String>,
    pub params: Option<Json>,
    pub success: Option<bool>,
    pub result: Option<Json>,
    pub error: Option<String>,
}

/// The mathematical form of a message.
pub struct MessageView {
    pub id: Option<Seq<char>>,
    pub type_: Option<Seq<char>>,
    pub role: Option<Seq<char>>,
    pub name: Option<Seq<char>>,
    pub client_id: Option<Seq<char>>,
    pub method: Option<Seq<char>>,
    pub params: Option<JsonView>,
    pub success: Option<bool>,
    pub result: Option<JsonView>,
    pub error: Option<Seq<char>>,
}

impl View for WireMessage {
    type V = MessageView;

    open spec fn view(&self) -> MessageView {
        MessageView {
            id: opt_text(self.id),
            type_: opt_text(self.type_),
            role: opt_text(self.role),
            name: opt_text(self.name),
            client_id: opt_text(self.client_id),
            method: opt_text(self.method),
            params: opt_json(self.params),
            success: self.success,
            result: opt_json(self.result),
            error: opt_text(self.error),
        }
    }
}

/// A message without any field.
pub open spec fn empty_message() -> MessageView {
    MessageView {
        id: None,
        type_: None,
        role: None,
        name: None,
        client_id: None,
        method: None,
        params: None,
        success: None,
        result: None,
        error: None,
    }
}

/// The response that carries a result.
pub open spec fn ok_message(id: Seq<char>, result: JsonView) -> MessageView {
    MessageView { id: Some(id), success: Some(true), result: Some(result), ..empty_message() }
}

/// The response that carries an error.
pub open spec fn err_message(id: Seq<char>, error: Seq<char>) -> MessageView {
    MessageView { id: Some(id), success: Some(false), error: Some(error), ..empty_message() }
}

/// An optional text as an optional value.
pub open spec fn text_entry(s: Option<Seq<char>>) -> Option<JsonView> {
    match s {
        Some(s) => Some(JsonView::Text(s)),
        None => None,
    }
}

/// A truth value as an optional value.
pub open spec fn bool_entry(b: Option<bool>) -> Option<JsonView> {
    match b {
        Some(b) => Some(JsonView::Bool(b)),
        None => None,
    }
}

/// A key with its value, where there is one.
pub open spec fn pair(key: Seq<char>, value: Option<JsonView>) -> Pairs {
    match value {
        Some(v) => seq![(key, v)],
        None => Seq::empty(),
    }
}

/// The fields of a message that are there, in the order in which they are sent.
pub open spec fn message_pairs(msg: MessageView) -> Pairs {
    pair("id"@, text_entry(msg.id)) + pair("type"@, text_entry(msg.type_)) + pair(
        "role"@,
        text_entry(msg.role),
    ) + pair("name"@, text_entry(msg.name)) + pair("client_id"@, text_entry(msg.client_id)) + pair(
        "method"@,
        text_entry(msg.method),
    ) + pair("params"@, msg.params) + pair("success"@, bool_entry(msg.success)) + pair(
        "result"@,
        msg.result,
    ) + pair("error"@, text_entry(msg.error))
}

/// A message as a JSON value: an object in which a field that is not there has no
/// key.
pub open spec fn message_json(msg: MessageView) -> JsonView {
    JsonView::Object(pairs_map(message_pairs(msg)))
}

/// A message as the text that is sent.
pub open spec fn message_text(msg: MessageView) -> Seq<char> {
    object_text(message_pairs(msg))
}

/// Whether what a message carries can be read from its text without a loss.
pub open spec fn readable_message(msg: MessageView) -> bool {
    &&& msg.params matches Some(v) ==> readable(v, 126)
    &&& msg.result matches Some(v) ==> readable(v, 126)
}

pub proof fn lemma_readable_message(msg: MessageView)
    requires
        readable_message(msg),
    ensures
        readable_pairs(message_pairs(msg)),
{
    let p0 = Pairs::empty();
    let p1 = pair("id"@, text_entry(msg.id));
    let p2 = p1 + pair("type"@, text_entry(msg.type_));
    let p3 = p2 + pair("role"@, text_entry(msg.role));
    let p4 = p3 + pair("name"@, text_entry(msg.name));
    let p5 = p4 + pair("client_id"@, text_entry(msg.client_id));
    let p6 = p5 + pair("method"@, text_entry(msg.method));
    let p7 = p6 + pair("params"@, msg.params);
    let p8 = p7 + pair("success"@, bool_entry(msg.success));
    let p9 = p8 + pair("result"@, msg.result);
    assert(p0 + p1 =~= p1);
    lemma_readable_pair(p0, "id"@, text_entry(msg.id));
    lemma_readable_pair(p1, "type"@, text_entry(msg.type_));
    lemma_readable_pair(p2, "role"@, text_entry(msg.role));
    lemma_readable_pair(p3, "name"@, text_entry(msg.name));
    lemma_readable_pair(p4, "client_id"@, text_entry(msg.client_id));
    lemma_readable_pair(p5, "method"@, text_entry(msg.method));
    lemma_readable_pair(p6, "params"@, msg.params);
    lemma_readable_pair(p7, "success"@, bool_entry(msg.success));
    lemma_readable_pair(p8, "result"@, msg.result);
    lemma_readable_pair(p9, "error"@, text_entry(msg.error));
}

proof fn lemma_readable_pair(pairs: Pairs, key: Seq<char>, value: Option<JsonView>)
    requires
        readable_pairs(pairs),
        value matches Some(v) ==> readable(v, 126),
    ensures
        readable_pairs(pairs + pair(key, value)),
{
    let more = pairs + pair(key, value);
    assert forall|i: int| 0 <= i < more.len() implies readable((#[trigger] more[i]).1, 126) by {
        if i < pairs.len() {
            assert(more[i] == pairs[i]);
        }
    }
}

/// The texts of keys and values.
spec fn pair_texts(pairs: Pairs) -> Seq<Seq<char>> {
    pairs.map_values(|pair: (Seq<char>, JsonView)| pair_text(pair))
}

/// Adds the text of a key and its value, where there is one, to the texts of those
/// before it.
fn add_pair(parts: &mut Vec<String>, Ghost(before): Ghost<Pairs>, key: &str, value: Option<Json>)
    requires
        texts(old(parts)@) == pair_texts(before),
    ensures
        texts(final(parts)@) == pair_texts(before + pair(key@, opt_json(value))),
{
    match value {
        Some(v) => {
            let mut text = Json::text(key).to_text();
            text.append(":");
            text.append(v.to_text().as_str());
            let ghost done = parts@;
            parts.push(text);
            proof {
                reveal_strlit(":");
                assert(":"@ =~= seq![':']);
                assert(text@ =~= pair_text((key@, v@)));
                assert(texts(parts@) =~= texts(done).push(text@));
                assert(before + pair(key@, Some(v@)) =~= before.push((key@, v@)));
                assert(pair_texts(before.push((key@, v@))) =~= pair_texts(before).push(text@));
            }
        },
        None => {
            assert(before + pair(key@, None) =~= before);
        },
    }
}

fn text_json(s: &Option<String>) -> (r: Option<Json>)
    ensures
        opt_json(r) == text_entry(opt_text(*s)),
{
    match s {
        Some(s) => Some(Json::text(s.as_str())),
        None => None,
    }
}

fn copy_json(j: &Option<Json>) -> (r: Option<Json>)
    ensures
        opt_json(r) == opt_json(*j),
{
    match j {
        Some(j) => Some(j.clone()),
        None => None,
    }
}

impl WireMessage {
    /// The text of a message, as it travels: its fields in their order, without
    /// those that are not there.
    pub fn to_text(&self) -> (r: String)
        ensures
            r@ == message_text(self@),
    {
        let mut parts: Vec<String> = Vec::new();
        let ghost p0 = Pairs::empty();
        assert(texts(parts@) =~= pair_texts(p0));
        add_pair(&mut parts, Ghost(p0), "id", text_json(&self.id));
        let ghost p1 = pair("id"@, text_entry(self@.id));
        assert(p0 + p1 =~= p1);
        add_pair(&mut parts, Ghost(p1), "type", text_json(&self.type_));
        let ghost p2 = p1 + pair("type"@, text_entry(self@.type_));
        add_pair(&mut parts, Ghost(p2), "role", text_json(&self.role));
        let ghost p3 = p2 + pair("role"@, text_entry(self@.role));
        add_pair(&mut parts, Ghost(p3), "name", text_json(&self.name));
        let ghost p4 = p3 + pair("name"@, text_entry(self@.name));
        add_pair(&mut parts, Ghost(p4), "client_id", text_json(&self.client_id));
        let ghost p5 = p4 + pair("client_id"@, text_entry(self@.client_id));
        add_pair(&mut parts, Ghost(p5), "method", text_json(&self.method));
        let ghost p6 = p5 + pair("method"@, text_entry(self@.method));
        add_pair(&mut parts, Ghost(p6), "params", copy_json(&self.params));
        let ghost p7 = p6 + pair("params"@, self@.params);
        let success = match self.success {
            Some(b) => Some(Json::Bool(b)),
            None => None,
        };
        add_pair(&mut parts, Ghost(p7), "success", success);
        let ghost p8 = p7 + pair("success"@, bool_entry(self@.success));
        add_pair(&mut parts, Ghost(p8), "result", copy_json(&self.result));
        let ghost p9 = p8 + pair("result"@, self@.result);
        add_pair(&mut parts, Ghost(p9), "error", text_json(&self.error));
        let mut text = "{".to_owned();
        text.append(join_texts(&parts, ",").as_str());
        text.append("}");
        proof {
            reveal_strlit("{");
            reveal_strlit(",");
            reveal_strlit("}");
            assert("{"@ =~= seq!['{'] && ","@ =~= seq![','] && "}"@ =~= seq!['}']);
        }
        text
    }

    /// A message without any field.
    pub fn empty() -> (r: Self)
        ensures
            r@ == empty_message(),
    {
        WireMessage {
            id: None,
            type_: None,
            role: None,
            name: None,
            client_id: None,
            method: None,
            params: None,
            success: None,
            result: None,
            error: None,
        }
    }

    /// The response that carries a result.
    pub fn ok(id: &str, result: Json) -> (r: Self)
        ensures
            r@ == ok_message(id@, result@),
    {
        let mut msg = WireMessage::empty();
        msg.id = Some(id.to_owned());
        msg.success = Some(true);
        msg.result = Some(result);
        msg
    }

    /// The response that carries an error.
    pub fn err(id: &str, error: &str) -> (r: Self)
        ensures
            r@ == err_message(id@, error@),
    {
        let mut msg = WireMessage::empty();
        msg.id = Some(id.to_owned());
        msg.success = Some(false);
        msg.error = Some(error.to_owned());
        msg
    }
}

/// Keys and values with one more.
proof fn lemma_pairs_map(pairs: Pairs, key: Seq<char>, value: Option<JsonView>)
    ensures
        pairs_map(pairs + pair(key, value)) == with(pairs_map(pairs), key, value),
{
    match value {
        Some(v) => {
            assert(pairs + pair(key, value) =~= pairs.push((key, v)));
            assert(pairs.push((key, v)).drop_last() =~= pairs);
        },
        None => {
            assert(pairs + pair(key, value) =~= pairs);
        },
    }
}

/// The entries of a message, put into a map one after the other.
spec fn message_map(m: MessageView) -> Map<Seq<char>, JsonView> {
    let a = with(Map::empty(), "id"@, text_entry(m.id));
    let a = with(a, "type"@, text_entry(m.type_));
    let a = with(a, "role"@, text_entry(m.role));
    let a = with(a, "name"@, text_entry(m.name));
    let a = with(a, "client_id"@, text_entry(m.client_id));
    let a = with(a, "method"@, text_entry(m.method));
    let a = with(a, "params"@, m.params);
    let a = with(a, "success"@, bool_entry(m.success));
    let a = with(a, "result"@, m.result);
    with(a, "error"@, text_entry(m.error))
}

proof fn lemma_message_map(m: MessageView)
    ensures
        pairs_map(message_pairs(m)) == message_map(m),
{
    let none = Pairs::empty();
    let p1 = pair("id"@, text_entry(m.id));
    let p2 = p1 + pair("type"@, text_entry(m.type_));
    let p3 = p2 + pair("role"@, text_entry(m.role));
    let p4 = p3 + pair("name"@, text_entry(m.name));
    let p5 = p4 + pair("client_id"@, text_entry(m.client_id));
    let p6 = p5 + pair("method"@, text_entry(m.method));
    let p7 = p6 + pair("params"@, m.params);
    let p8 = p7 + pair("success"@, bool_entry(m.success));
    let p9 = p8 + pair("result"@, m.result);
    assert(none + p1 =~= p1);
    lemma_pairs_map(none, "id"@, text_entry(m.id));
    lemma_pairs_map(p1, "type"@, text_entry(m.type_));
    lemma_pairs_map(p2, "role"@, text_entry(m.role));
    lemma_pairs_map(p3, "name"@, text_entry(m.name));
    lemma_pairs_map(p4, "client_id"@, text_entry(m.client_id));
    lemma_pairs_map(p5, "method"@, text_entry(m.method));
    lemma_pairs_map(p6, "params"@, m.params);
    lemma_pairs_map(p7, "success"@, bool_entry(m.success));
    lemma_pairs_map(p8, "result"@, m.result);
    lemma_pairs_map(p9, "error"@, text_entry(m.error));
}

/// The names of the fields of a message.
pub open spec fn is_field_name(key: Seq<char>) -> bool {
    ||| key == "id"@
    ||| key == "type"@
    ||| key == "role"@
    ||| key == "name"@
    ||| key == "client_id"@
    ||| key == "method"@
    ||| key == "params"@
    ||| key == "success"@
    ||| key == "result"@
    ||| key == "error"@
}

/// The names of the fields differ, in their lengths or in their first letters.
pub proof fn lemma_field_names()
    ensures
        "id"@.len() == 2,
        "type"@.len() == 4 && "type"@[0] == 't',
        "role"@.len() == 4 && "role"@[0] == 'r',
        "name"@.len() == 4 && "name"@[0] == 'n',
        "client_id"@.len() == 9,
        "method"@.len() == 6 && "method"@[0] == 'm',
        "params"@.len() == 6 && "params"@[0] == 'p',
        "success"@.len() == 7,
        "result"@.len() == 6 && "result"@[0] == 'r',
        "error"@.len() == 5,
{
    reveal_strlit("id");
    reveal_strlit("type");
    reveal_strlit("role");
    reveal_strlit("name");
    reveal_strlit("client_id");
    reveal_strlit("method");
    reveal_strlit("params");
    reveal_strlit("success");
    reveal_strlit("result");
    reveal_strlit("error");
}

/// Each field of a message is found again in what is sent, under its key; a field
/// that is not there has no key, and no other key is there.
pub proof fn law_fields_are_found_again(m: MessageView)
    ensures
        field(message_json(m), "id"@) == text_entry(m.id),
        field(message_json(m), "type"@) == text_entry(m.type_),
        field(message_json(m), "role"@) == text_entry(m.role),
        field(message_json(m), "name"@) == text_entry(m.name),
        field(message_json(m), "client_id"@) == text_entry(m.client_id),
        field(message_json(m), "method"@) == text_entry(m.method),
        field(message_json(m), "params"@) == m.params,
        field(message_json(m), "success"@) == bool_entry(m.success),
        field(message_json(m), "result"@) == m.result,
        field(message_json(m), "error"@) == text_entry(m.error),
        forall|key: Seq<char>| #[trigger]
            field(message_json(m), key) is Some ==> is_field_name(key),
{
    lemma_field_names();
    lemma_message_map(m);
}

/// The message that the fields of an object make up. A `null` counts as a field
/// that is not there.
pub open spec fn message_in(v: JsonView) -> MessageView {
    MessageView {
        id: text_field(v, "id"@),
        type_: text_field(v, "type"@),
        role: text_field(v, "role"@),
        name: text_field(v, "name"@),
        client_id: text_field(v, "client_id"@),
        method: text_field(v, "method"@),
        params: given(field(v, "params"@)),
        success: bool_field(v, "success"@),
        result: given(field(v, "result"@)),
        error: text_field(v, "error"@),
    }
}

/// A value, unless it is `null`.
pub open spec fn given(v: Option<JsonView>) -> Option<JsonView> {
    match v {
        Some(JsonView::Null) => None,
        _ => v,
    }
}

/// A message is the same after it has been sent, unless its parameters or its
/// result are `null`.
pub proof fn law_message_is_read_back(m: MessageView)
    requires
        m.params != Some(JsonView::Null),
        m.result != Some(JsonView::Null),
    ensures
        message_in(message_json(m)) == m,
{
    law_fields_are_found_again(m);
}

/// A response holds its id, whether it is a success, and a result or an error:
/// nothing else.
pub proof fn law_keys_of_responses(id: Seq<char>, result: JsonView, error: Seq<char>)
    ensures
        message_json(ok_message(id, result)) == JsonView::Object(
            map!["id"@ => JsonView::Text(id), "success"@ => JsonView::Bool(true), "result"@ => result],
        ),
        message_json(err_message(id, error)) == JsonView::Object(
            map!["id"@ => JsonView::Text(id), "success"@ => JsonView::Bool(false), "error"@ => JsonView::Text(error)],
        ),
{
    lemma_field_names();
    let ok = message_json(ok_message(id, result));
    let err = message_json(err_message(id, error));
    law_fields_are_found_again(ok_message(id, result));
    law_fields_are_found_again(err_message(id, error));
    let a = map!["id"@ => JsonView::Text(id), "success"@ => JsonView::Bool(true), "result"@ => result];
    let b = map!["id"@ => JsonView::Text(id), "success"@ => JsonView::Bool(false), "error"@ => JsonView::Text(error)];
    assert forall|key: Seq<char>| #[trigger] field(ok, key) == field(JsonView::Object(a), key) by {}
    assert forall|key: Seq<char>| #[trigger] field(err, key) == field(JsonView::Object(b), key) by {}
    lemma_same_fields(ok->Object_0, a);
    lemma_same_fields(err->Object_0, b);
}

proof fn lemma_same_fields(a: Map<Seq<char>, JsonView>, b: Map<Seq<char>, JsonView>)
    requires
        forall|key: Seq<char>| #[trigger]
            field(JsonView::Object(a), key) == field(JsonView::Object(b), key),
    ensures
        a == b,
{
    assert forall|key: Seq<char>|
        (#[trigger] a.dom().contains(key)) == b.dom().contains(key) && (a.dom().contains(key)
            ==> a[key] == b[key]) by {
        assert(field(JsonView::Object(a), key) == field(JsonView::Object(b), key));
    }
    assert(a =~= b);
}

/// A copy of an optional text.
pub fn copy_text(s: &Option<String>) -> (r: Option<String>)
    ensures
        opt_text(r) == opt_text(*s),
{
    match s {
        Some(s) => Some(s.clone()),
        None => None,
    }
}

/// An optional text as a slice.
pub fn text_ref(s: &Option<String>) -> (r: Option<&str>)
    ensures
        opt_str(r) == opt_text(*s),
{
    match s {
        Some(s) => Some(s.as_str()),
        None => None,
    }
}

/// The result of a `ping`: `{ "pong": true }`.
pub open spec fn pong_view() -> JsonView {
    JsonView::Object(Map::empty().insert("pong"@, JsonView::Bool(true)))
}

/// The result of a `ping`.
pub fn pong() -> (r: Json)
    ensures
        r@ == pong_view(),
{
    let mut entries: Vec<(String, Json)> = Vec::new();
    put(&mut entries, "pong", Json::Bool(true));
    Json::Object(entries)
}

/// What a refused handshake is answered:
/// `{ "type": "error", "error": <message> }`.
pub open spec fn refusal_view(message: Seq<char>) -> JsonView {
    JsonView::Object(
        Map::empty().insert("type"@, JsonView::Text("error"@)).insert(
            "error"@,
            JsonView::Text(message),
        ),
    )
}

/// What a refused handshake is answered.
pub fn refusal(message: &str) -> (r: Json)
    ensures
        r@ == refusal_view(message@),
{
    let mut entries: Vec<(String, Json)> = Vec::new();
    put(&mut entries, "type", Json::text("error"));
    put(&mut entries, "error", Json::text(message));
    Json::Object(entries)
}

} // verus!
