//! The life of one connection to the hub: a greeting first, then messages, until
//! either side is gone.
use vstd::prelude::*;

use crate::hub::{EventView, HubMsg};
use crate::json::{compact_text, field, JsonView};
use crate::text::same;
use crate::wire::{copy_text, refusal, refusal_view, text_ref, MessageView, Role, WireMessage};

verus! {

/// What comes in on a connection.
#[derive(Debug)]
pub enum Arrival {
    /// A text frame that holds a message.
    Message(WireMessage),
    /// A text frame that holds none, and why not.
    Garbled(String),
    /// A frame of another kind.
    OtherFrame,
    /// The end of the connection.
    Gone,
}

/// The mathematical form of what comes in.
pub enum ArrivalView {
    Message(MessageView),
    Garbled(Seq<char>),
    OtherFrame,
    Gone,
}

impl View for Arrival {
    type V = ArrivalView;

    open spec fn view(&self) -> ArrivalView {
        match self {
            Arrival::Message(msg) => ArrivalView::Message(msg@),
            Arrival::Garbled(reason) => ArrivalView::Garbled(reason@),
            Arrival::OtherFrame => ArrivalView::OtherFrame,
            Arrival::Gone => ArrivalView::Gone,
        }
    }
}

/// What happens to a connection.
#[derive(Debug)]
pub enum Input {
    /// Something has come in.
    Arrived(Arrival),
    /// A message could not be written.
    WriteFailed,
    /// The hub has let go of the connection.
    LetGo,
}

/// The mathematical form of what happens to a connection.
pub enum InputView {
    Arrived(ArrivalView),
    WriteFailed,
    LetGo,
}

impl View for Input {
    type V = InputView;

    open spec fn view(&self) -> InputView {
        match self {
            Input::Arrived(arrival) => InputView::Arrived(arrival@),
            Input::WriteFailed => InputView::WriteFailed,
            Input::LetGo => InputView::LetGo,
        }
    }
}

/// What is to be done for a connection.
#[derive(Debug)]
pub enum Effect {
    /// Write a text back.
    Answer(String),
    /// Tell the hub.
    Tell(HubMsg),
}

/// The mathematical form of what is to be done.
pub enum EffectView {
    Answer(Seq<char>),
    Tell(EventView),
}

impl View for Effect {
    type V = EffectView;

    open spec fn view(&self) -> EffectView {
        match self {
            Effect::Answer(text) => EffectView::Answer(text@),
            Effect::Tell(event) => EffectView::Tell(event@),
        }
    }
}

pub open spec fn opt_effect(e: Option<Effect>) -> Option<EffectView> {
    match e {
        Some(e) => Some(e@),
        None => None,
    }
}

/// How far a connection is.
#[derive(Debug, Clone, Copy, PartialEq, Eq, Structural)]
pub enum Phase {
    /// Waiting for the greeting.
    Handshake,
    /// Registered with the hub.
    Open,
    /// Over.
    Closed,
}

// ---------------------------------------------------------------------------
// The greeting
// ---------------------------------------------------------------------------

/// Whether a message is a greeting.
pub open spec fn is_hello(msg: MessageView) -> bool {
    msg.type_ == Some("hello"@)
}

/// The role that a greeting declares.
pub open spec fn declared_role(hello: MessageView) -> Option<Role> {
    if hello.role == Some("extension"@) {
        Some(Role::Extension)
    } else if hello.role == Some("client"@) {
        Some(Role::Client)
    } else {
        None
    }
}

/// What a good greeting tells the hub.
pub open spec fn registration(conn_id: u64, role: Role, hello: MessageView) -> EventView {
    EventView::Register {
        conn_id,
        role,
        name: match hello.name {
            Some(name) => name,
            None => "unnamed"@,
        },
        client_id: hello.client_id,
    }
}

/// How the first thing that comes in is taken: a registration, or the message
/// with which the connection is refused. Only a greeting that declares a role is
/// a registration.
pub open spec fn greeting(conn_id: u64, first: ArrivalView) -> Result<EventView, Seq<char>> {
    match first {
        ArrivalView::Message(hello) => if !is_hello(hello) {
            Err("expected hello message"@)
        } else {
            match declared_role(hello) {
                Some(role) => Ok(registration(conn_id, role, hello)),
                None => Err("hello must declare role"@),
            }
        },
        ArrivalView::Garbled(reason) => Err("invalid hello: "@ + reason),
        _ => Err("expected hello message"@),
    }
}

fn greets(msg: &WireMessage) -> (r: bool)
    ensures
        r == is_hello(msg@),
{
    match text_ref(&msg.type_) {
        Some(kind) => same(kind, "hello"),
        None => false,
    }
}

fn role_of(hello: &WireMessage) -> (r: Option<Role>)
    ensures
        r == declared_role(hello@),
{
    match text_ref(&hello.role) {
        Some(role) => if same(role, "extension") {
            Some(Role::Extension)
        } else if same(role, "client") {
            Some(Role::Client)
        } else {
            None
        },
        None => None,
    }
}

/// Takes the first thing that comes in on a connection.
pub fn greet(conn_id: u64, first: Arrival) -> (r: Result<HubMsg, String>)
    ensures
        match r {
            Ok(event) => greeting(conn_id, first@) == Ok::<EventView, Seq<char>>(event@),
            Err(message) => greeting(conn_id, first@) == Err::<EventView, Seq<char>>(message@),
        },
{
    match first {
        Arrival::Message(hello) => {
            if !greets(&hello) {
                return Err("expected hello message".to_owned());
            }
            match role_of(&hello) {
                Some(role) => {
                    let name = match copy_text(&hello.name) {
                        Some(name) => name,
                        None => "unnamed".to_owned(),
                    };
                    let client_id = copy_text(&hello.client_id);
                    Ok(HubMsg::Register { conn_id, role, name, client_id })
                },
                None => Err("hello must declare role".to_owned()),
            }
        },
        Arrival::Garbled(reason) => {
            let mut message = "invalid hello: ".to_owned();
            message.append(reason.as_str());
            Err(message)
        },
        _ => Err("expected hello message".to_owned()),
    }
}

// ---------------------------------------------------------------------------
// The whole session
// ---------------------------------------------------------------------------

/// What happens next on a connection: the phase it is in afterwards, and what is
/// to be done.
pub open spec fn session_next(conn_id: u64, phase: Phase, input: InputView) -> (
    Phase,
    Option<EffectView>,
) {
    match phase {
        Phase::Handshake => match greeting(
            conn_id,
            match input {
                InputView::Arrived(arrival) => arrival,
                _ => ArrivalView::Gone,
            },
        ) {
            Ok(event) => (Phase::Open, Some(EffectView::Tell(event))),
            Err(message) => (
                Phase::Closed,
                Some(EffectView::Answer(compact_text(refusal_view(message)))),
            ),
        },
        Phase::Open => match input {
            InputView::Arrived(ArrivalView::Message(msg)) => (
                Phase::Open,
                Some(EffectView::Tell(EventView::Forward { conn_id, msg })),
            ),
            InputView::Arrived(ArrivalView::Garbled(_)) => (Phase::Open, None),
            InputView::Arrived(ArrivalView::OtherFrame) => (Phase::Open, None),
            _ => (Phase::Closed, Some(EffectView::Tell(EventView::Unregister { conn_id }))),
        },
        Phase::Closed => (Phase::Closed, None),
    }
}

/// Takes the next thing that happens on a connection.
pub fn handle_conn(conn_id: u64, phase: Phase, input: Input) -> (r: (Phase, Option<Effect>))
    ensures
        (r.0, opt_effect(r.1)) == session_next(conn_id, phase, input@),
{
    match phase {
        Phase::Handshake => {
            let first = match input {
                Input::Arrived(arrival) => arrival,
                _ => Arrival::Gone,
            };
            match greet(conn_id, first) {
                Ok(event) => (Phase::Open, Some(Effect::Tell(event))),
                Err(message) => (
                    Phase::Closed,
                    Some(Effect::Answer(refusal(message.as_str()).to_text())),
                ),
            }
        },
        Phase::Open => match input {
            Input::Arrived(Arrival::Message(msg)) => (
                Phase::Open,
                Some(Effect::Tell(HubMsg::Forward { conn_id, msg })),
            ),
            Input::Arrived(Arrival::Garbled(_)) => (Phase::Open, None),
            Input::Arrived(Arrival::OtherFrame) => (Phase::Open, None),
            _ => (Phase::Closed, Some(Effect::Tell(HubMsg::Unregister { conn_id }))),
        },
        Phase::Closed => (Phase::Closed, None),
    }
}

/// A greeting that declares a role tells the hub who has come: the role that it
/// declares, its name, and its identity exactly as it gives it.
pub proof fn law_greeting_tells_who_came(conn_id: u64, hello: MessageView)
    requires
        hello.type_ == Some("hello"@),
        hello.role == Some("client"@) || hello.role == Some("extension"@),
    ensures
        session_next(
            conn_id,
            Phase::Handshake,
            InputView::Arrived(ArrivalView::Message(hello)),
        ) matches (Phase::Open, Some(EffectView::Tell(told))) && {
            &&& told matches EventView::Register { conn_id: c, role, name, client_id }
            &&& c == conn_id
            &&& role is Client <==> hello.role == Some("client"@)
            &&& client_id == hello.client_id
            &&& hello.name matches Some(given) ==> name == given
            &&& hello.name is None ==> name == "unnamed"@
        },
{
    reveal_strlit("client");
    reveal_strlit("extension");
    assert("client"@.len() == 6 && "extension"@.len() == 9);
}

/// Whether a text is the answer to a refused greeting:
/// `{ "type": "error", "error": <message> }`.
pub open spec fn is_refusal(text: Seq<char>, message: Seq<char>) -> bool {
    exists|v: JsonView| #[trigger]
        compact_text(v) == text && v is Object && (forall|key: Seq<char>| #[trigger]
            field(v, key) == if key == "type"@ {
                Some(JsonView::Text("error"@))
            } else if key == "error"@ {
                Some(JsonView::Text(message))
            } else {
                None
            })
}

/// Whatever comes first and is not a greeting that declares a role is refused, with
/// the message that says why, and the connection is over.
pub proof fn law_refusals_say_why(conn_id: u64, first: InputView)
    ensures
        ({
            let (phase, effect) = session_next(conn_id, Phase::Handshake, first);
            match first {
                InputView::Arrived(ArrivalView::Message(msg)) => if msg.type_ != Some("hello"@) {
                    phase is Closed && (effect matches Some(EffectView::Answer(text)) && is_refusal(
                        text,
                        "expected hello message"@,
                    ))
                } else {
                    msg.role != Some("client"@) && msg.role != Some("extension"@) ==> phase is Closed
                        && (effect matches Some(EffectView::Answer(text)) && is_refusal(
                        text,
                        "hello must declare role"@,
                    ))
                },
                InputView::Arrived(ArrivalView::Garbled(reason)) => phase is Closed && (
                effect matches Some(EffectView::Answer(text)) && is_refusal(
                    text,
                    "invalid hello: "@ + reason,
                )),
                _ => phase is Closed && (effect matches Some(EffectView::Answer(text))
                    && is_refusal(text, "expected hello message"@)),
            }
        }),
{
    let (phase, effect) = session_next(conn_id, Phase::Handshake, first);
    if let Some(EffectView::Answer(text)) = effect {
        let message = match first {
            InputView::Arrived(ArrivalView::Message(msg)) => if msg.type_ != Some("hello"@) {
                "expected hello message"@
            } else {
                "hello must declare role"@
            },
            InputView::Arrived(ArrivalView::Garbled(reason)) => "invalid hello: "@ + reason,
            _ => "expected hello message"@,
        };
        let v = refusal_view(message);
        reveal_strlit("type");
        reveal_strlit("error");
        assert("type"@.len() == 4 && "error"@.len() == 5);
        assert(compact_text(v) == text);
        assert forall|key: Seq<char>| #[trigger] field(v, key) == if key == "type"@ {
            Some(JsonView::Text("error"@))
        } else if key == "error"@ {
            Some(JsonView::Text(message))
        } else {
            None
        } by {}
        assert(is_refusal(text, message));
    }
}

/// What an open connection sends is handed to the hub as it is; what cannot be read
/// is passed over; and when the connection ends, or is let go of, or cannot be
/// written to, the hub is told that it is over.
pub proof fn law_open_session(conn_id: u64, input: InputView)
    ensures
        session_next(conn_id, Phase::Open, input) == match input {
            InputView::Arrived(ArrivalView::Message(msg)) => (
                Phase::Open,
                Some(EffectView::Tell(EventView::Forward { conn_id, msg })),
            ),
            InputView::Arrived(ArrivalView::Garbled(_)) => (Phase::Open, None::<EffectView>),
            InputView::Arrived(ArrivalView::OtherFrame) => (Phase::Open, None::<EffectView>),
            InputView::Arrived(ArrivalView::Gone) => (
                Phase::Closed,
                Some(EffectView::Tell(EventView::Unregister { conn_id })),
            ),
            InputView::WriteFailed => (
                Phase::Closed,
                Some(EffectView::Tell(EventView::Unregister { conn_id })),
            ),
            InputView::LetGo => (
                Phase::Closed,
                Some(EffectView::Tell(EventView::Unregister { conn_id })),
            ),
        },
{
}

/// A whole session: the phase in which it ends, and everything that was done.
pub open spec fn session(conn_id: u64, inputs: Seq<InputView>) -> (Phase, Seq<EffectView>)
    decreases inputs.len(),
{
    if inputs.len() == 0 {
        (Phase::Handshake, Seq::empty())
    } else {
        let (phase, done) = session(conn_id, inputs.drop_last());
        let (next, effect) = session_next(conn_id, phase, inputs.last());
        (
            next,
            match effect {
                Some(e) => done.push(e),
                None => done,
            },
        )
    }
}

/// Whether the hub is told that the connection declares itself.
pub open spec fn is_registration(conn_id: u64, e: EffectView) -> bool {
    e matches EffectView::Tell(EventView::Register { conn_id: c, .. }) && c == conn_id
}

/// Whether the hub is handed a message of the connection.
pub open spec fn is_forward(conn_id: u64, e: EffectView) -> bool {
    e matches EffectView::Tell(EventView::Forward { conn_id: c, .. }) && c == conn_id
}

/// Whatever happens on a connection, the hub is told nothing before the greeting,
/// then of one registration, then of messages, and at the end, once, that the
/// connection is over. A refused connection is answered once, and the hub never
/// hears of it.
pub proof fn law_session_order(conn_id: u64, inputs: Seq<InputView>)
    ensures
        ({
            let (phase, done) = session(conn_id, inputs);
            match phase {
                Phase::Handshake => done.len() == 0,
                Phase::Open => {
                    &&& done.len() > 0
                    &&& is_registration(conn_id, done[0])
                    &&& forall|i: int| 0 < i < done.len() ==> is_forward(conn_id, #[trigger] done[i])
                },
                Phase::Closed => {
                    ||| done.len() == 1 && done[0] is Answer
                    ||| {
                        &&& done.len() > 1
                        &&& is_registration(conn_id, done[0])
                        &&& forall|i: int|
                            0 < i < done.len() - 1 ==> is_forward(conn_id, #[trigger] done[i])
                        &&& done.last() == EffectView::Tell(EventView::Unregister { conn_id })
                    }
                },
            }
        }),
    decreases inputs.len(),
{
    if inputs.len() > 0 {
        law_session_order(conn_id, inputs.drop_last());
    }
}

/// The first message has to be a greeting: whatever else comes first, the
/// connection is refused, and the hub never hears of it.
pub proof fn law_greeting_is_required(conn_id: u64, first: InputView, rest: Seq<InputView>)
    requires
        !(first matches InputView::Arrived(ArrivalView::Message(msg)) && is_hello(msg)),
    ensures
        ({
            let (phase, done) = session(conn_id, seq![first] + rest);
            phase is Closed && done.len() == 1 && done[0] is Answer
        }),
    decreases rest.len(),
{
    let all = seq![first] + rest;
    if rest.len() == 0 {
        assert(all.drop_last() =~= Seq::<InputView>::empty());
        assert(all.last() == first);
        reveal_with_fuel(session, 2);
    } else {
        law_greeting_is_required(conn_id, first, rest.drop_last());
        assert(all.drop_last() =~= seq![first] + rest.drop_last());
    }
}

/// A connection that is over stays over.
pub proof fn law_closed_for_good(conn_id: u64, inputs: Seq<InputView>, more: InputView)
    requires
        session(conn_id, inputs).0 is Closed,
    ensures
        session(conn_id, inputs.push(more)) == session(conn_id, inputs),
{
    assert(inputs.push(more).drop_last() =~= inputs);
}

} // verus!
