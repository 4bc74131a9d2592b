//! What holds of the hub whatever happens to it.
use vstd::prelude::*;

use crate::hub::{
    client_sent, extension_sent, fresh_hub, hub_next, hub_wf, is_ping, message_id, timed_out, timeout_text,
    ActionView, EventView, HubView,
};
use crate::json::JsonView;
use crate::session::{
    law_greeting_tells_who_came, session_next, ArrivalView, EffectView, InputView, Phase,
};
use crate::text::{decimal, numeral};
use crate::wire::{err_message, ok_message, pong_view, MessageView, Role};

verus! {

/// Every event leaves the hub well-formed.
pub proof fn law_hub_invariant(h: HubView, event: EventView)
    requires
        hub_wf(h),
    ensures
        hub_wf(hub_next(h, event).0),
{
    let next = hub_next(h, event).0;
    assert(next.extension is None ==> next.pending =~= Map::<Seq<char>, u64>::empty());
}

/// At most one connection is registered as an extension.
pub proof fn law_one_extension(h: HubView, a: u64, b: u64)
    requires
        hub_wf(h),
        h.conns.contains_key(a) && h.conns[a].role is Extension,
        h.conns.contains_key(b) && h.conns[b].role is Extension,
    ensures
        a == b,
{
}

/// Messages go only to connections that are registered when the event comes.
pub proof fn law_sends_only_to_registered(h: HubView, event: EventView, i: int)
    requires
        0 <= i < hub_next(h, event).1.len(),
    ensures
        hub_next(h, event).1[i] matches ActionView::Send { to, msg } ==> h.conns.contains_key(to),
{
}

/// A request goes to the extension unchanged, but for the identity of the client
/// that the hub puts on it, and is under way from then on.
pub proof fn law_request_is_forwarded(
    h: HubView,
    ext: u64,
    client: u64,
    msg: MessageView,
    id: Seq<char>,
)
    requires
        hub_wf(h),
        h.extension == Some(ext),
        h.conns.contains_key(client) && h.conns[client].role is Client,
        message_id(msg) == Some(id),
        !is_ping(msg),
    ensures
        ({
            let (next, actions) = hub_next(h, EventView::Forward { conn_id: client, msg });
            &&& actions[0] == ActionView::Send {
                to: ext,
                msg: MessageView { client_id: h.conns[client].client_id, ..msg },
            }
            &&& actions.last() == ActionView::StartTimer { id }
            &&& forall|i: int| 0 < i < actions.len() ==> !(#[trigger] actions[i] is Send)
            &&& next == HubView { pending: h.pending.insert(id, client), ..h }
        }),
{
}

/// Without an extension every request is refused, and nothing changes.
pub proof fn law_request_without_extension(
    h: HubView,
    client: u64,
    msg: MessageView,
    id: Seq<char>,
)
    requires
        h.extension is None,
        h.conns.contains_key(client) && h.conns[client].role is Client,
        message_id(msg) == Some(id),
        !is_ping(msg),
    ensures
        hub_next(h, EventView::Forward { conn_id: client, msg }) == (
            h,
            seq![
                ActionView::Send {
                    to: client,
                    msg: err_message(id, "no extension connected"@),
                },
            ],
        ),
{
}

/// A request without an id is refused, and nothing changes.
pub proof fn law_request_without_id(h: HubView, client: u64, msg: MessageView)
    requires
        h.conns.contains_key(client) && h.conns[client].role is Client,
        message_id(msg) is None,
    ensures
        hub_next(h, EventView::Forward { conn_id: client, msg }) == (
            h,
            seq![ActionView::Send { to: client, msg: err_message(""@, "missing id"@) }],
        ),
{
}

/// A heartbeat is answered to whoever sent it, extension or client, whether or
/// not there is an extension, and nothing changes.
pub proof fn law_ping_is_answered(h: HubView, conn: u64, msg: MessageView, id: Seq<char>)
    requires
        h.conns.contains_key(conn),
        message_id(msg) == Some(id),
        is_ping(msg),
    ensures
        hub_next(h, EventView::Forward { conn_id: conn, msg }) == (
            h,
            seq![ActionView::Send { to: conn, msg: ok_message(id, pong_view()) }],
        ),
{
}

/// What a client sends reaches no other client: only itself and the extension.
pub proof fn law_clients_are_isolated(h: HubView, client: u64, msg: MessageView, i: int)
    requires
        0 <= i < client_sent(h, client, msg).1.len(),
    ensures
        client_sent(h, client, msg).1[i] matches ActionView::Send { to, msg } ==> to == client
            || h.extension == Some(to),
{
}

/// A new extension takes the place of the one before: that one is let go, and
/// every request under way is given up.
pub proof fn law_new_extension_displaces(
    h: HubView,
    old_ext: u64,
    new_ext: u64,
    name: Seq<char>,
    client_id: Option<Seq<char>>,
)
    requires
        h.extension == Some(old_ext),
        old_ext != new_ext,
    ensures
        ({
            let (next, actions) = hub_next(
                h,
                EventView::Register { conn_id: new_ext, role: Role::Extension, name, client_id },
            );
            &&& next.extension == Some(new_ext)
            &&& next.conns.contains_key(new_ext)
            &&& !next.conns.contains_key(old_ext)
            &&& next.pending == Map::<Seq<char>, u64>::empty()
            &&& actions == seq![ActionView::Close { conn_id: old_ext }, ActionView::CancelTimers]
        }),
{
}

/// With the extension go the requests that it has not answered.
pub proof fn law_lost_extension(h: HubView, ext: u64)
    requires
        h.extension == Some(ext),
    ensures
        ({
            let next = hub_next(h, EventView::Unregister { conn_id: ext }).0;
            &&& next.extension is None
            &&& !next.conns.contains_key(ext)
            &&& next.pending == Map::<Seq<char>, u64>::empty()
        }),
{
}

/// An answered request is over: neither a second response nor its timer brings
/// its client anything more.
pub proof fn law_answered_once(h: HubView, ext: u64, first: MessageView, second: MessageView, id: Seq<char>)
    requires
        message_id(first) == Some(id),
        message_id(second) == Some(id),
        !is_ping(first),
        !is_ping(second),
    ensures
        ({
            let next = extension_sent(h, ext, first).0;
            &&& extension_sent(next, ext, second) == (next, Seq::<ActionView>::empty())
            &&& timed_out(next, id) == (next, Seq::<ActionView>::empty())
        }),
{
}

/// A request that has timed out is over: its client has been told, and a late
/// response brings nothing more.
pub proof fn law_timed_out_once(h: HubView, ext: u64, late: MessageView, id: Seq<char>, client: u64)
    requires
        h.pending.contains_key(id) && h.pending[id] == client,
        h.conns.contains_key(client),
        message_id(late) == Some(id),
        !is_ping(late),
    ensures
        ({
            let (next, actions) = hub_next(h, EventView::TimedOut { id });
            &&& actions == seq![
                ActionView::Send { to: client, msg: err_message(id, timeout_text()) },
            ]
            &&& extension_sent(next, ext, late) == (next, Seq::<ActionView>::empty())
            &&& timed_out(next, id) == (next, Seq::<ActionView>::empty())
        }),
{
}

/// A response or a timeout touches no request but its own.
pub proof fn law_requests_are_independent(
    h: HubView,
    ext: u64,
    msg: MessageView,
    id: Seq<char>,
    other: Seq<char>,
)
    requires
        message_id(msg) == Some(id),
        id != other,
    ensures
        extension_sent(h, ext, msg).0.pending.contains_key(other) == h.pending.contains_key(other),
        extension_sent(h, ext, msg).0.pending[other] == h.pending[other],
        timed_out(h, id).0.pending.contains_key(other) == h.pending.contains_key(other),
        timed_out(h, id).0.pending[other] == h.pending[other],
{
}

/// A request under way is not lost: it stays under way for its client until it is
/// answered, times out, is taken over by another request with its id, or is given
/// up with the extension. An answer and a timeout reach its client if that is
/// still there.
pub proof fn law_no_request_is_lost(h: HubView, event: EventView, id: Seq<char>, client: u64)
    requires
        h.pending.contains_key(id) && h.pending[id] == client,
    ensures
        ({
            let (next, actions) = hub_next(h, event);
            let told = |msg: MessageView|
                h.conns.contains_key(client) ==> actions.last() == ActionView::Send {
                    to: client,
                    msg,
                };
            ||| next.pending.contains_key(id) && next.pending[id] == client
            ||| event matches EventView::Forward { conn_id, msg } && message_id(msg) == Some(id)
                && h.conns[conn_id].role is Extension && told(msg)
            ||| event == EventView::TimedOut { id } && told(err_message(id, timeout_text()))
            ||| event matches EventView::Forward { conn_id, msg } && message_id(msg) == Some(id)
                && h.conns[conn_id].role is Client && next.pending.contains_key(id)
                && next.pending[id] == conn_id
            ||| event matches EventView::Register { conn_id, role, name, client_id }
                && role is Extension && h.extension is Some
            ||| event matches EventView::Unregister { conn_id } && h.extension == Some(conn_id)
        }),
{
}

// ---------------------------------------------------------------------------
// Timers and connections
// ---------------------------------------------------------------------------

/// The timers that run after some actions.
pub open spec fn timers_after(running: Set<Seq<char>>, actions: Seq<ActionView>) -> Set<Seq<char>>
    decreases actions.len(),
{
    if actions.len() == 0 {
        running
    } else {
        let before = timers_after(running, actions.drop_last());
        match actions.last() {
            ActionView::StartTimer { id } => before.insert(id),
            ActionView::CancelTimer { id } => before.remove(id),
            ActionView::CancelTimers => Set::empty(),
            _ => before,
        }
    }
}

/// The connections that are held after some actions.
pub open spec fn held_after(held: Set<u64>, actions: Seq<ActionView>) -> Set<u64>
    decreases actions.len(),
{
    if actions.len() == 0 {
        held
    } else {
        let before = held_after(held, actions.drop_last());
        match actions.last() {
            ActionView::Close { conn_id } => before.remove(conn_id),
            _ => before,
        }
    }
}

/// Exactly the requests under way have a running timer. (A timer that runs out
/// has stopped by itself.)
pub proof fn law_timers_match_requests(h: HubView, event: EventView)
    ensures
        timers_after(
            match event {
                EventView::TimedOut { id } => h.pending.dom().remove(id),
                _ => h.pending.dom(),
            },
            hub_next(h, event).1,
        ) == hub_next(h, event).0.pending.dom(),
{
    let (next, actions) = hub_next(h, event);
    let running = match event {
        EventView::TimedOut { id } => h.pending.dom().remove(id),
        _ => h.pending.dom(),
    };
    reveal_with_fuel(timers_after, 4);
    assert(actions.len() <= 3);
    if actions.len() >= 1 {
        assert(actions.drop_last().len() == actions.len() - 1);
    }
    assert(timers_after(running, actions) =~= next.pending.dom());
}

/// Exactly the registered connections are held, the one that registers
/// included.
pub proof fn law_held_match_registered(h: HubView, event: EventView)
    ensures
        ({
            let held = held_after(h.conns.dom(), hub_next(h, event).1);
            hub_next(h, event).0.conns.dom() == match event {
                EventView::Register { conn_id, role, name, client_id } => held.insert(conn_id),
                _ => held,
            }
        }),
{
    let (next, actions) = hub_next(h, event);
    reveal_with_fuel(held_after, 4);
    let held = held_after(h.conns.dom(), actions);
    let expected = match event {
        EventView::Register { conn_id, role, name, client_id } => held.insert(conn_id),
        _ => held,
    };
    assert(next.conns.dom() =~= expected);
}

// ---------------------------------------------------------------------------
// A request and its response
// ---------------------------------------------------------------------------

/// The hub after several events.
pub open spec fn hub_run(h: HubView, events: Seq<EventView>) -> HubView
    decreases events.len(),
{
    if events.len() == 0 {
        h
    } else {
        hub_next(hub_run(h, events.drop_last()), events.last()).0
    }
}

/// Whether an event has nothing to do with a request: neither its client nor the
/// extension leaves or is replaced, and nobody else uses its id.
pub open spec fn leaves_alone(event: EventView, client: u64, ext: u64, id: Seq<char>) -> bool {
    match event {
        EventView::Register { conn_id, role, name, client_id } => role is Client && conn_id != ext,
        EventView::Unregister { conn_id } => conn_id != client && conn_id != ext,
        EventView::Forward { conn_id, msg } => message_id(msg) != Some(id) || is_ping(msg),
        EventView::TimedOut { id: other } => other != id,
    }
}

proof fn lemma_request_survives(
    h: HubView,
    events: Seq<EventView>,
    client: u64,
    ext: u64,
    id: Seq<char>,
)
    requires
        h.extension == Some(ext),
        h.conns.contains_key(ext) && h.conns[ext].role is Extension,
        h.conns.contains_key(client),
        h.pending.contains_key(id) && h.pending[id] == client,
        forall|i: int| 0 <= i < events.len() ==> leaves_alone(#[trigger] events[i], client, ext, id),
    ensures
        ({
            let end = hub_run(h, events);
            &&& end.extension == Some(ext)
            &&& end.conns.contains_key(ext) && end.conns[ext].role is Extension
            &&& end.conns.contains_key(client)
            &&& end.pending.contains_key(id) && end.pending[id] == client
        }),
    decreases events.len(),
{
    if events.len() > 0 {
        let front = events.drop_last();
        assert forall|i: int| 0 <= i < front.len() implies leaves_alone(
            #[trigger] front[i],
            client,
            ext,
            id,
        ) by {
            assert(front[i] == events[i]);
        }
        lemma_request_survives(h, front, client, ext, id);
        assert(leaves_alone(events[events.len() - 1], client, ext, id));
    }
}

/// The response to a request goes, unchanged, to the client that sent the
/// request and to nobody else, whatever else happens in between.
pub proof fn law_response_is_routed_back(
    h: HubView,
    ext: u64,
    client: u64,
    request: MessageView,
    id: Seq<char>,
    between: Seq<EventView>,
    response: MessageView,
)
    requires
        hub_wf(h),
        h.extension == Some(ext),
        h.conns[ext].role is Extension,
        h.conns.contains_key(client) && h.conns[client].role is Client,
        message_id(request) == Some(id),
        !is_ping(request),
        forall|i: int|
            0 <= i < between.len() ==> leaves_alone(#[trigger] between[i], client, ext, id),
        message_id(response) == Some(id),
        !is_ping(response),
    ensures
        ({
            let asked = hub_next(h, EventView::Forward { conn_id: client, msg: request }).0;
            let waiting = hub_run(asked, between);
            hub_next(waiting, EventView::Forward { conn_id: ext, msg: response }) == (
                HubView { pending: waiting.pending.remove(id), ..waiting },
                seq![
                    ActionView::CancelTimer { id },
                    ActionView::Send { to: client, msg: response },
                ],
            )
        }),
{
    let asked = hub_next(h, EventView::Forward { conn_id: client, msg: request }).0;
    lemma_request_survives(asked, between, client, ext, id);
    let waiting = hub_run(asked, between);
    assert(hub_next(waiting, EventView::Forward { conn_id: ext, msg: response }).1 =~= seq![
        ActionView::CancelTimer { id },
        ActionView::Send { to: client, msg: response },
    ]);
}

// ---------------------------------------------------------------------------
// Who a request comes from
// ---------------------------------------------------------------------------

/// A connection that declares itself is registered with the role and the identity
/// that it declares. A client leaves everything else as it is.
pub proof fn law_registration_is_kept(
    h: HubView,
    conn_id: u64,
    role: Role,
    name: Seq<char>,
    client_id: Option<Seq<char>>,
)
    ensures
        ({
            let (next, actions) = hub_next(
                h,
                EventView::Register { conn_id, role, name, client_id },
            );
            &&& next.conns.contains_key(conn_id)
            &&& next.conns[conn_id].role == role
            &&& next.conns[conn_id].client_id == client_id
            &&& forall|c: u64| #[trigger]
                next.conns.contains_key(c) && c != conn_id ==> h.conns.contains_key(c)
                    && next.conns[c] == h.conns[c]
            &&& role is Extension ==> next.extension == Some(conn_id)
            &&& role is Client ==> {
                &&& next.extension == h.extension
                &&& next.pending == h.pending
                &&& actions.len() == 0
                &&& forall|c: u64| #[trigger] h.conns.contains_key(c) ==> next.conns.contains_key(c)
            }
        }),
{
}

/// A client that leaves takes nothing with it but its own registration.
pub proof fn law_leaving_client(h: HubView, conn_id: u64)
    requires
        h.extension != Some(conn_id),
    ensures
        ({
            let next = hub_next(h, EventView::Unregister { conn_id }).0;
            &&& !next.conns.contains_key(conn_id)
            &&& next.extension == h.extension
            &&& next.pending == h.pending
            &&& forall|c: u64| #[trigger]
                h.conns.contains_key(c) && c != conn_id ==> next.conns.contains_key(c)
                    && next.conns[c] == h.conns[c]
        }),
{
}

/// What neither asks nor answers anything does nothing: a message of the extension
/// without an id, or with the id of no request under way, and the timer of no such
/// request.
pub proof fn law_nothing_to_answer(h: HubView, ext: u64, msg: MessageView, id: Seq<char>)
    requires
        h.conns.contains_key(ext) && h.conns[ext].role is Extension,
        !h.pending.contains_key(id),
        msg.id is None || msg.id == Some(Seq::<char>::empty()) || (msg.id == Some(id) && msg.method
            != Some("ping"@)),
    ensures
        hub_next(h, EventView::Forward { conn_id: ext, msg }) == (h, Seq::<ActionView>::empty()),
        hub_next(h, EventView::TimedOut { id }) == (h, Seq::<ActionView>::empty()),
{
}

/// A client is told of each refusal in plain words, under the id of its message and
/// with nothing else in it: that the id is missing, that there is no extension, or
/// that the extension did not respond in time. A heartbeat is answered with a pong.
pub proof fn law_answers_of_the_hub(h: HubView, client: u64, msg: MessageView, id: Seq<char>)
    requires
        h.conns.contains_key(client) && h.conns[client].role is Client,
        id.len() > 0,
    ensures
        msg.id is None || msg.id == Some(Seq::<char>::empty()) ==> hub_next(
            h,
            EventView::Forward { conn_id: client, msg },
        ).1 == seq![ActionView::Send { to: client, msg: err_message(""@, "missing id"@) }],
        msg.id == Some(id) && msg.method == Some("ping"@) ==> (hub_next(
            h,
            EventView::Forward { conn_id: client, msg },
        ).1 matches actions && actions.len() == 1 && (actions[0] matches ActionView::Send {
            to,
            msg: pong,
        } && to == client && pong.id == Some(id) && pong.success == Some(true) && (
        pong.result matches Some(v) && v == JsonView::Object(
            map!["pong"@ => JsonView::Bool(true)],
        )))),
        msg.id == Some(id) && msg.method != Some("ping"@) && h.extension is None ==> hub_next(
            h,
            EventView::Forward { conn_id: client, msg },
        ).1 == seq![
            ActionView::Send { to: client, msg: err_message(id, "no extension connected"@) },
        ],
        h.pending.contains_key(id) && h.pending[id] == client ==> hub_next(
            h,
            EventView::TimedOut { id },
        ).1 == seq![
            ActionView::Send {
                to: client,
                msg: err_message(id, "timeout: extension did not respond in 30s"@),
            },
        ],
{
    lemma_timeout_text();
    assert(Map::<Seq<char>, JsonView>::empty().insert("pong"@, JsonView::Bool(true)) =~= map![
        "pong"@ => JsonView::Bool(true),
    ]);
}

proof fn lemma_timeout_text()
    ensures
        timeout_text() == "timeout: extension did not respond in 30s"@,
{
    reveal_strlit("timeout: extension did not respond in ");
    reveal_strlit("s");
    reveal_strlit("timeout: extension did not respond in 30s");
    reveal_with_fuel(numeral, 3);
    assert(decimal(30) =~= seq!['3', '0']);
    assert(timeout_text() =~= "timeout: extension did not respond in 30s"@);
}

/// A message is known by the id that it bears, unless that is empty, and is a heartbeat
/// where its method is `ping`. A heartbeat is answered to whoever sent it: with its id,
/// as a success, with `{ "pong": true }` as the result.
pub proof fn law_heartbeats(h: HubView, conn: u64, msg: MessageView, id: Seq<char>)
    ensures
        message_id(msg) == Some(id) <==> msg.id == Some(id) && id.len() > 0,
        is_ping(msg) <==> msg.method == Some("ping"@),
        h.conns.contains_key(conn) && msg.id == Some(id) && id.len() > 0 && msg.method == Some(
            "ping"@,
        ) ==> {
            let (next, actions) = hub_next(h, EventView::Forward { conn_id: conn, msg });
            &&& next == h
            &&& actions.len() == 1
            &&& actions[0] matches ActionView::Send { to, msg: answer } && to == conn && answer.id
                == Some(id) && answer.success == Some(true) && answer.result == Some(
                JsonView::Object(map!["pong"@ => JsonView::Bool(true)]),
            ) && answer.error is None
        },
{
    assert(Map::<Seq<char>, JsonView>::empty().insert("pong"@, JsonView::Bool(true)) =~= map![
        "pong"@ => JsonView::Bool(true),
    ]);
}

/// Whether an event leaves a connection registered as it is: it neither declares
/// itself anew nor ends.
pub open spec fn keeps_registration(event: EventView, conn: u64) -> bool {
    match event {
        EventView::Register { conn_id, .. } => conn_id != conn,
        EventView::Unregister { conn_id } => conn_id != conn,
        _ => true,
    }
}

proof fn lemma_registration_lasts(h: HubView, events: Seq<EventView>, conn: u64)
    requires
        h.conns.contains_key(conn),
        h.extension != Some(conn),
        forall|i: int| 0 <= i < events.len() ==> keeps_registration(#[trigger] events[i], conn),
    ensures
        hub_run(h, events).conns.contains_key(conn),
        hub_run(h, events).conns[conn] == h.conns[conn],
        hub_run(h, events).extension != Some(conn),
    decreases events.len(),
{
    if events.len() > 0 {
        let front = events.drop_last();
        assert forall|i: int| 0 <= i < front.len() implies keeps_registration(
            #[trigger] front[i],
            conn,
        ) by {
            assert(front[i] == events[i]);
        }
        lemma_registration_lasts(h, front, conn);
        assert(keeps_registration(events[events.len() - 1], conn));
    }
}

/// The extension learns from every request who has sent it. A client that has
/// greeted with an identity, or with none, is known by that identity: whatever else
/// happens to the hub meanwhile, each request of the client that is not a heartbeat
/// reaches the extension as it was sent, with that identity on it, and nothing else
/// is sent.
pub proof fn law_requests_bear_the_identity_of_the_greeting(
    h: HubView,
    conn_id: u64,
    hello: MessageView,
    between: Seq<EventView>,
    request: MessageView,
    id: Seq<char>,
    ext: u64,
)
    requires
        hub_wf(h),
        !h.conns.contains_key(conn_id),
        hello.type_ == Some("hello"@),
        hello.role == Some("client"@),
        forall|i: int|
            0 <= i < between.len() ==> keeps_registration(#[trigger] between[i], conn_id),
        request.id == Some(id) && id.len() > 0,
        request.method != Some("ping"@),
    ensures
        ({
            let (open, told) = session_next(
                conn_id,
                Phase::Handshake,
                InputView::Arrived(ArrivalView::Message(hello)),
            );
            let (_, sent) = session_next(
                conn_id,
                open,
                InputView::Arrived(ArrivalView::Message(request)),
            );
            told matches Some(EffectView::Tell(registration)) && (
            sent matches Some(EffectView::Tell(forward)) && {
                let met = hub_run(hub_next(h, registration).0, between);
                met.extension == Some(ext) ==> {
                    let actions = hub_next(met, forward).1;
                    &&& actions[0] matches ActionView::Send { to, msg } && to == ext
                        && msg.client_id == hello.client_id && msg == (MessageView {
                        client_id: hello.client_id,
                        ..request
                    })
                    &&& forall|i: int| 0 < i < actions.len() ==> !(#[trigger] actions[i] is Send)
                    &&& hub_next(met, forward).0.pending.contains_key(id)
                    &&& hub_next(met, forward).0.pending[id] == conn_id
                }
            })
        }),
{
    reveal_strlit("client");
    reveal_strlit("extension");
    assert("client"@.len() == 6 && "extension"@.len() == 9);
    law_greeting_tells_who_came(conn_id, hello);
    let told = session_next(
        conn_id,
        Phase::Handshake,
        InputView::Arrived(ArrivalView::Message(hello)),
    ).1;
    let registration = told->0->Tell_0;
    let next = hub_next(h, registration).0;
    law_hub_invariant(h, registration);
    lemma_registration_lasts(next, between, conn_id);
    lemma_run_keeps_wf(next, between);
}

proof fn lemma_run_keeps_wf(h: HubView, events: Seq<EventView>)
    requires
        hub_wf(h),
    ensures
        hub_wf(hub_run(h, events)),
    decreases events.len(),
{
    if events.len() > 0 {
        lemma_run_keeps_wf(h, events.drop_last());
        law_hub_invariant(hub_run(h, events.drop_last()), events.last());
    }
}

// ---------------------------------------------------------------------------
// Whole runs
// ---------------------------------------------------------------------------

/// The hub before event number `k` of a run that begins with a fresh hub.
pub open spec fn hub_before(events: Seq<EventView>, k: int) -> HubView {
    hub_run(fresh_hub(), events.take(k))
}

/// What is done about event number `k` of a run.
pub open spec fn actions_at(events: Seq<EventView>, k: int) -> Seq<ActionView> {
    hub_next(hub_before(events, k), events[k]).1
}

/// The id of the request that an event puts under way, if it does.
pub open spec fn taken_up(h: HubView, event: EventView) -> Option<Seq<char>> {
    match event {
        EventView::Forward { conn_id, msg } => if h.conns.contains_key(conn_id)
            && h.conns[conn_id].role is Client && !is_ping(msg) && h.extension is Some {
            message_id(msg)
        } else {
            None
        },
        _ => None,
    }
}

/// For each request under way after a run, the number of the event that was the
/// request.
pub open spec fn origins(events: Seq<EventView>) -> Map<Seq<char>, int>
    decreases events.len(),
{
    if events.len() == 0 {
        Map::empty()
    } else {
        let front = events.drop_last();
        let h = hub_run(fresh_hub(), front);
        let next = hub_next(h, events.last()).0;
        let known = match taken_up(h, events.last()) {
            Some(id) => origins(front).insert(id, front.len() as int),
            None => origins(front),
        };
        Map::new(|id: Seq<char>| next.pending.contains_key(id), |id: Seq<char>| known[id])
    }
}

/// The number of the request that event number `k` of a run brings the answer to,
/// if it does: the event itself, where a client is answered at once, or the
/// request that the extension answers or that times out.
pub open spec fn answered_request(events: Seq<EventView>, k: int) -> Option<int> {
    let h = hub_before(events, k);
    match events[k] {
        EventView::Forward { conn_id, msg } => if !h.conns.contains_key(conn_id) {
            None
        } else if h.conns[conn_id].role is Client {
            if taken_up(h, events[k]) is Some {
                None
            } else {
                Some(k)
            }
        } else {
            match message_id(msg) {
                Some(id) => if !is_ping(msg) && h.pending.contains_key(id) {
                    Some(origins(events.take(k))[id])
                } else {
                    None
                },
                None => None,
            }
        },
        EventView::TimedOut { id } => if h.pending.contains_key(id) {
            Some(origins(events.take(k))[id])
        } else {
            None
        },
        _ => None,
    }
}

/// Whether an event leaves the extension an extension: its connection does not
/// declare itself a client.
pub open spec fn keeps_extension(h: HubView, event: EventView) -> bool {
    event matches EventView::Register { conn_id, role, name, client_id } ==> role is Extension
        || h.extension != Some(conn_id)
}

/// Whether no connection that is the extension declares itself a client during a
/// run. A connection that declares itself once, as each session does, never does.
pub open spec fn orderly(events: Seq<EventView>) -> bool {
    forall|k: int|
        0 <= k < events.len() ==> keeps_extension(hub_before(events, k), #[trigger] events[k])
}

proof fn lemma_orderly_front(events: Seq<EventView>)
    requires
        events.len() > 0,
        orderly(events),
    ensures
        orderly(events.drop_last()),
{
    let front = events.drop_last();
    assert forall|k: int| 0 <= k < front.len() implies keeps_extension(
        hub_before(front, k),
        #[trigger] front[k],
    ) by {
        assert(front.take(k) =~= events.take(k));
        assert(front[k] == events[k]);
        assert(keeps_extension(hub_before(events, k), events[k]));
    }
}

/// After a run from a fresh hub: the hub is well-formed.
proof fn lemma_run_wf(events: Seq<EventView>)
    ensures
        hub_wf(hub_run(fresh_hub(), events)),
    decreases events.len(),
{
    if events.len() > 0 {
        lemma_run_wf(events.drop_last());
        law_hub_invariant(hub_run(fresh_hub(), events.drop_last()), events.last());
    }
}

/// After an orderly run: the extension is registered as an extension.
proof fn lemma_run_extension(events: Seq<EventView>)
    requires
        orderly(events),
    ensures
        ({
            let h = hub_run(fresh_hub(), events);
            h.extension matches Some(ext) ==> h.conns.contains_key(ext)
                && h.conns[ext].role is Extension
        }),
    decreases events.len(),
{
    if events.len() > 0 {
        let front = events.drop_last();
        lemma_orderly_front(events);
        lemma_run_extension(front);
        lemma_run_wf(front);
        let last = events.len() - 1;
        assert(events.take(last) =~= front);
        assert(keeps_extension(hub_before(events, last), events[last]));
    }
}

/// Whether an event is a request with an id from a connection.
pub open spec fn is_request(event: EventView, client: u64, id: Seq<char>) -> bool {
    event matches EventView::Forward { conn_id, msg } && conn_id == client && message_id(msg)
        == Some(id)
}

/// After a run: the requests under way are known by their events.
proof fn lemma_origins(events: Seq<EventView>)
    ensures
        ({
            let h = hub_run(fresh_hub(), events);
            &&& origins(events).dom() == h.pending.dom()
            &&& forall|id: Seq<char>| #[trigger]
                h.pending.contains_key(id) ==> {
                    &&& 0 <= origins(events)[id] < events.len()
                    &&& is_request(events[origins(events)[id]], h.pending[id], id)
                }
        }),
    decreases events.len(),
{
    let h = hub_run(fresh_hub(), events);
    if events.len() == 0 {
        assert(origins(events).dom() =~= h.pending.dom());
    } else {
        let front = events.drop_last();
        let g = hub_run(fresh_hub(), front);
        lemma_origins(front);
        lemma_run_wf(front);
        assert(origins(events).dom() =~= h.pending.dom());
        assert forall|id: Seq<char>| #[trigger] h.pending.contains_key(id) implies {
            &&& 0 <= origins(events)[id] < events.len()
            &&& is_request(events[origins(events)[id]], h.pending[id], id)
        } by {
            if taken_up(g, events.last()) == Some(id) {
                assert(origins(events)[id] == front.len());
                assert(events[front.len() as int] == events.last());
            } else {
                assert(g.pending.contains_key(id) && g.pending[id] == h.pending[id]);
                let j = origins(front)[id];
                assert(origins(events)[id] == j);
                assert(events[j] == front[j]);
            }
        }
    }
}

/// A request that has been answered is not under way any more.
proof fn lemma_answered_is_gone(events: Seq<EventView>, k: int)
    requires
        0 <= k < events.len(),
        answered_request(events, k) is Some,
    ensures
        0 <= answered_request(events, k)->0 <= k,
        forall|id: Seq<char>| #[trigger]
            hub_run(fresh_hub(), events).pending.contains_key(id) ==> origins(events)[id]
                != answered_request(events, k)->0,
    decreases events.len(),
{
    let front = events.drop_last();
    let last = events.len() - 1;
    let j = answered_request(events, k)->0;
    let g = hub_run(fresh_hub(), front);
    let h = hub_run(fresh_hub(), events);
    assert(events.take(last) =~= front);
    lemma_origins(front);
    lemma_origins(events);
    lemma_run_wf(front);
    if k < last {
        assert(front.take(k) =~= events.take(k));
        assert(front[k] == events[k]);
        assert(answered_request(front, k) == answered_request(events, k));
        lemma_answered_is_gone(front, k);
        assert forall|id: Seq<char>| #[trigger] h.pending.contains_key(id) implies origins(events)[id]
            != j by {
            if taken_up(g, events.last()) == Some(id) {
                assert(origins(events)[id] == last);
            } else {
                assert(g.pending.contains_key(id));
                assert(origins(events)[id] == origins(front)[id]);
            }
        }
    } else {
        assert(events[k] == events.last());
        assert(hub_before(events, k) == g);
        assert forall|id: Seq<char>| #[trigger] h.pending.contains_key(id) implies origins(events)[id]
            != j by {
            assert(taken_up(g, events.last()) is None);
            assert(g.pending.contains_key(id));
            assert(origins(events)[id] == origins(front)[id]);
            if j != k {
                let gone = match events[k] {
                    EventView::Forward { conn_id, msg } => message_id(msg)->0,
                    EventView::TimedOut { id } => id,
                    _ => id,
                };
                assert(g.pending.contains_key(gone));
                assert(j == origins(front)[gone]);
                assert(id != gone);
                assert(is_request(front[j], g.pending[gone], gone));
                assert(is_request(front[origins(front)[id]], g.pending[id], id));
            }
        }
    }
}

/// Over a whole run, each request is answered at most once, be it with a response,
/// an error or a timeout: no two events bring the answer to the same request.
pub proof fn law_one_answer_for_each_request(events: Seq<EventView>, k1: int, k2: int)
    requires
        0 <= k1 < k2 < events.len(),
        answered_request(events, k1) is Some,
    ensures
        answered_request(events, k1) != answered_request(events, k2),
{
    let front = events.take(k2);
    assert(front.take(k1) =~= events.take(k1));
    assert(front[k1] == events[k1]);
    assert(answered_request(front, k1) == answered_request(events, k1));
    lemma_answered_is_gone(front, k1);
    lemma_origins(front);
}

/// An event brings at most one message to anybody.
pub proof fn law_one_message_for_each_event(h: HubView, event: EventView, i: int, j: int)
    requires
        0 <= i < hub_next(h, event).1.len(),
        0 <= j < hub_next(h, event).1.len(),
        hub_next(h, event).1[i] is Send,
        hub_next(h, event).1[j] is Send,
    ensures
        i == j,
{
}

/// What a message bears as its id that answers a request: that of the request, or
/// an empty one where the request has none.
pub open spec fn answer_id(request: MessageView) -> Seq<char> {
    match message_id(request) {
        Some(id) => id,
        None => ""@,
    }
}

/// Over a whole run, every message to a client is the answer to a request that
/// this client sent, and bears the id of it; what the extension answers reaches
/// the client unchanged.
pub proof fn law_messages_answer_requests(events: Seq<EventView>, k: int, i: int)
    requires
        orderly(events),
        0 <= k < events.len(),
        0 <= i < actions_at(events, k).len(),
        actions_at(events, k)[i] matches ActionView::Send { to, msg } && hub_before(
            events,
            k,
        ).conns[to].role is Client,
    ensures
        ({
            let to = actions_at(events, k)[i]->to;
            let msg = actions_at(events, k)[i]->Send_msg;
            let request = answered_request(events, k);
            &&& request is Some && 0 <= request->0 <= k
            &&& events[request->0] matches EventView::Forward { conn_id, msg: asked } && conn_id
                == to && msg.id == Some(answer_id(asked))
            &&& (events[k] matches EventView::Forward { conn_id, msg: said } && hub_before(
                events,
                k,
            ).conns[conn_id].role is Extension) ==> events[k]->Forward_msg == msg
        }),
{
    let front = events.take(k);
    let h = hub_before(events, k);
    assert(orderly(front)) by {
        assert forall|n: int| 0 <= n < front.len() implies keeps_extension(
            hub_before(front, n),
            #[trigger] front[n],
        ) by {
            assert(front.take(n) =~= events.take(n));
            assert(front[n] == events[n]);
            assert(keeps_extension(hub_before(events, n), events[n]));
        }
    }
    lemma_run_extension(front);
    lemma_run_wf(front);
    lemma_origins(front);
    let to = actions_at(events, k)[i]->to;
    let msg = actions_at(events, k)[i]->Send_msg;
    match events[k] {
        EventView::Forward { conn_id, msg: said } => {
            assert(h.conns.contains_key(conn_id));
            if h.conns[conn_id].role is Client {
                assert(taken_up(h, events[k]) is None);
            } else {
                let id = message_id(said)->0;
                assert(h.extension == Some(conn_id));
                assert(!is_ping(said));
                assert(h.pending.contains_key(id));
                assert(front[origins(front)[id]] == events[origins(front)[id]]);
            }
        },
        EventView::TimedOut { id } => {
            assert(h.pending.contains_key(id));
            assert(front[origins(front)[id]] == events[origins(front)[id]]);
        },
        _ => {},
    }
}

/// What comes from a connection that is not registered is passed over.
pub proof fn law_strangers_are_passed_over(h: HubView, conn_id: u64, msg: MessageView)
    requires
        !h.conns.contains_key(conn_id),
    ensures
        hub_next(h, EventView::Forward { conn_id, msg }) == (h, Seq::<ActionView>::empty()),
{
}

} // verus!
