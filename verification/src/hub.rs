//! The hub: one extension, any number of clients, and the requests that are
//! under way between them.
//!
//! The hub itself does no input or output. It takes events and answers each
//! with the actions that are to be carried out: messages to send, timers to set
//! and connections to let go.
use std::collections::HashMap;
use vstd::prelude::*;
use vstd::hash_map::StringHashMap;

use crate::text::{decimal, decimal_text, opt_text, same};
use crate::wire::{
    copy_text, err_message, ok_message, pong, pong_view, text_ref, MessageView, Role, WireMessage,
};

verus! {

/// For how many seconds the extension may leave a request unanswered.
pub const REQUEST_TIMEOUT_SECS: u64 = 30;

/// A registered connection.
pub struct Conn {
    role: Role,
    client_id: Option<String>,
}

/// The mathematical form of a registered connection.
pub struct ConnView {
    pub role: Role,
    pub client_id: Option<Seq<char>>,
}

impl View for Conn {
    type V = ConnView;

    closed spec fn view(&self) -> ConnView {
        ConnView { role: self.role, client_id: opt_text(self.client_id) }
    }
}

/// What happens to the hub.
#[derive(Debug)]
pub enum HubMsg {
    /// A connection has declared itself.
    Register { conn_id: u64, role: Role, name: String, client_id: Option<String> },
    /// A connection has ended.
    Unregister { conn_id: u64 },
    /// A connection has sent a message.
    Forward { conn_id: u64, msg: WireMessage },
    /// The timer of a request has run out.
    TimedOut { id: String },
}

/// The mathematical form of an event.
pub enum EventView {
    Register { conn_id: u64, role: Role, name: Seq<char>, client_id: Option<Seq<char>> },
    Unregister { conn_id: u64 },
    Forward { conn_id: u64, msg: MessageView },
    TimedOut { id: Seq<char> },
}

impl View for HubMsg {
    type V = EventView;

    open spec fn view(&self) -> EventView {
        match self {
            HubMsg::Register { conn_id, role, name, client_id } => EventView::Register {
                conn_id: *conn_id,
                role: *role,
                name: name@,
                client_id: opt_text(*client_id),
            },
            HubMsg::Unregister { conn_id } => EventView::Unregister { conn_id: *conn_id },
            HubMsg::Forward { conn_id, msg } => EventView::Forward { conn_id: *conn_id, msg: msg@ },
            HubMsg::TimedOut { id } => EventView::TimedOut { id: id@ },
        }
    }
}

/// What the hub wants done.
#[derive(Debug)]
pub enum Action {
    /// Hand a message to a connection.
    Send { to: u64, msg: WireMessage },
    /// Let go of a connection.
    Close { conn_id: u64 },
    /// Start the timer of a request.
    StartTimer { id: String },
    /// Stop the timer of a request.
    CancelTimer { id: String },
    /// Stop every timer.
    CancelTimers,
}

/// The mathematical form of an action.
pub enum ActionView {
    Send { to: u64, msg: MessageView },
    Close { conn_id: u64 },
    StartTimer { id: Seq<char> },
    CancelTimer { id: Seq<char> },
    CancelTimers,
}

impl View for Action {
    type V = ActionView;

    open spec fn view(&self) -> ActionView {
        match self {
            Action::Send { to, msg } => ActionView::Send { to: *to, msg: msg@ },
            Action::Close { conn_id } => ActionView::Close { conn_id: *conn_id },
            Action::StartTimer { id } => ActionView::StartTimer { id: id@ },
            Action::CancelTimer { id } => ActionView::CancelTimer { id: id@ },
            Action::CancelTimers => ActionView::CancelTimers,
        }
    }
}

/// The views of a list of actions.
pub open spec fn action_views(actions: Seq<Action>) -> Seq<ActionView> {
    actions.map_values(|a: Action| a@)
}

/// The connections, the extension among them, and the requests under way.
pub struct Hub {
    conns: HashMap<u64, Conn>,
    extension_id: Option<u64>,
    pending: StringHashMap<u64>,
}

/// The mathematical form of the hub.
#[verifier::ext_equal]
pub struct HubView {
    /// The registered connections.
    pub conns: Map<u64, ConnView>,
    /// The connection of the extension.
    pub extension: Option<u64>,
    /// For each request under way, the connection it came from.
    pub pending: Map<Seq<char>, u64>,
}

impl View for Hub {
    type V = HubView;

    closed spec fn view(&self) -> HubView {
        HubView {
            conns: self.conns@.map_values(|c: Conn| c@),
            extension: self.extension_id,
            pending: self.pending@,
        }
    }
}

// ---------------------------------------------------------------------------
// What each event does
// ---------------------------------------------------------------------------

/// A message to a connection; nothing where the connection is not registered.
pub open spec fn reply(h: HubView, to: u64, msg: MessageView) -> Seq<ActionView> {
    if h.conns.contains_key(to) {
        seq![ActionView::Send { to, msg }]
    } else {
        Seq::empty()
    }
}

/// The id by which a message is paired: the one it carries, unless that is empty.
pub open spec fn message_id(msg: MessageView) -> Option<Seq<char>> {
    match msg.id {
        Some(id) => if id.len() > 0 {
            Some(id)
        } else {
            None
        },
        None => None,
    }
}

/// Whether a message is a heartbeat.
pub open spec fn is_ping(msg: MessageView) -> bool {
    msg.method == Some("ping"@)
}

/// What the client of an unanswered request is told.
pub open spec fn timeout_text() -> Seq<char> {
    "timeout: extension did not respond in "@ + decimal(REQUEST_TIMEOUT_SECS as nat) + "s"@
}

/// A connection declares itself. A new extension takes the place of the one
/// before it, whose unfinished requests are given up.
pub open spec fn registered(
    h: HubView,
    conn_id: u64,
    role: Role,
    client_id: Option<Seq<char>>,
) -> (HubView, Seq<ActionView>) {
    let conn = ConnView { role, client_id };
    match (role, h.extension) {
        (Role::Extension, Some(old)) => (
            HubView {
                conns: h.conns.remove(old).insert(conn_id, conn),
                extension: Some(conn_id),
                pending: Map::empty(),
            },
            seq![ActionView::Close { conn_id: old }, ActionView::CancelTimers],
        ),
        (Role::Extension, None) => (
            HubView {
                conns: h.conns.insert(conn_id, conn),
                extension: Some(conn_id),
                pending: h.pending,
            },
            Seq::empty(),
        ),
        (Role::Client, _) => (HubView { conns: h.conns.insert(conn_id, conn), ..h }, Seq::empty()),
    }
}

/// A connection ends. With the extension go the unfinished requests.
pub open spec fn unregistered(h: HubView, conn_id: u64) -> (HubView, Seq<ActionView>) {
    let close = if h.conns.contains_key(conn_id) {
        seq![ActionView::Close { conn_id }]
    } else {
        Seq::empty()
    };
    if h.extension == Some(conn_id) {
        (
            HubView { conns: h.conns.remove(conn_id), extension: None, pending: Map::empty() },
            seq![ActionView::CancelTimers] + close,
        )
    } else {
        (HubView { conns: h.conns.remove(conn_id), ..h }, close)
    }
}

/// A client sends a message: a heartbeat is answered, anything else is a request
/// for the extension, which gets it with the identity of the client on it.
pub open spec fn client_sent(h: HubView, client: u64, msg: MessageView) -> (
    HubView,
    Seq<ActionView>,
) {
    match message_id(msg) {
        None => (h, reply(h, client, err_message(""@, "missing id"@))),
        Some(id) => if is_ping(msg) {
            (h, reply(h, client, ok_message(id, pong_view())))
        } else {
            match h.extension {
                None => (h, reply(h, client, err_message(id, "no extension connected"@))),
                Some(ext) => if h.conns.contains_key(ext) && h.conns.contains_key(client) {
                    (
                        HubView { pending: h.pending.insert(id, client), ..h },
                        seq![
                            ActionView::Send {
                                to: ext,
                                msg: MessageView { client_id: h.conns[client].client_id, ..msg },
                            },
                        ] + (if h.pending.contains_key(id) {
                            seq![ActionView::CancelTimer { id }]
                        } else {
                            Seq::empty()
                        }) + seq![ActionView::StartTimer { id }],
                    )
                } else {
                    (h, Seq::empty())
                },
            }
        },
    }
}

/// The extension sends a message: a heartbeat is answered, and a response goes
/// to the client whose request it answers.
pub open spec fn extension_sent(h: HubView, conn_id: u64, msg: MessageView) -> (
    HubView,
    Seq<ActionView>,
) {
    match message_id(msg) {
        None => (h, Seq::empty()),
        Some(id) => if is_ping(msg) {
            (h, reply(h, conn_id, ok_message(id, pong_view())))
        } else if h.pending.contains_key(id) {
            (
                HubView { pending: h.pending.remove(id), ..h },
                seq![ActionView::CancelTimer { id }] + reply(h, h.pending[id], msg),
            )
        } else {
            (h, Seq::empty())
        },
    }
}

/// The timer of a request runs out: if the request is still under way, its
/// client is told so.
pub open spec fn timed_out(h: HubView, id: Seq<char>) -> (HubView, Seq<ActionView>) {
    if h.pending.contains_key(id) {
        (
            HubView { pending: h.pending.remove(id), ..h },
            reply(h, h.pending[id], err_message(id, timeout_text())),
        )
    } else {
        (h, Seq::empty())
    }
}

/// What an event does to the hub, and the actions it calls for.
pub open spec fn hub_next(h: HubView, event: EventView) -> (HubView, Seq<ActionView>) {
    match event {
        EventView::Register { conn_id, role, name, client_id } => registered(
            h,
            conn_id,
            role,
            client_id,
        ),
        EventView::Unregister { conn_id } => unregistered(h, conn_id),
        EventView::Forward { conn_id, msg } => if h.conns.contains_key(conn_id) {
            match h.conns[conn_id].role {
                Role::Client => client_sent(h, conn_id, msg),
                Role::Extension => extension_sent(h, conn_id, msg),
            }
        } else {
            (h, Seq::empty())
        },
        EventView::TimedOut { id } => timed_out(h, id),
    }
}

/// The hub before anything has happened.
pub open spec fn fresh_hub() -> HubView {
    HubView { conns: Map::empty(), extension: None, pending: Map::empty() }
}

/// The extension, if there is one, is registered, and nothing else is
/// registered as an extension. Requests are under way only while there is an
/// extension, and each of them has an id.
pub open spec fn hub_wf(h: HubView) -> bool {
    &&& h.extension matches Some(ext) ==> h.conns.contains_key(ext)
    &&& h.extension is None ==> h.pending == Map::<Seq<char>, u64>::empty()
    &&& forall|c: u64| #[trigger]
        h.conns.contains_key(c) && h.conns[c].role is Extension ==> h.extension == Some(c)
    &&& forall|id: Seq<char>| #[trigger] h.pending.contains_key(id) ==> id.len() > 0
}

// ---------------------------------------------------------------------------
// The hub at work
// ---------------------------------------------------------------------------

/// The id by which a message is paired.
fn pairing_id(msg: &WireMessage) -> (r: Option<String>)
    ensures
        opt_text(r) == message_id(msg@),
{
    match &msg.id {
        Some(id) => if id.as_str().is_empty() {
            None
        } else {
            Some(id.clone())
        },
        None => None,
    }
}

/// Whether a message is a heartbeat.
fn pings(msg: &WireMessage) -> (r: bool)
    ensures
        r == is_ping(msg@),
{
    match text_ref(&msg.method) {
        Some(method) => same(method, "ping"),
        None => false,
    }
}

fn timeout_message() -> (r: String)
    ensures
        r@ == timeout_text(),
{
    let mut out = "timeout: extension did not respond in ".to_owned();
    out.append(decimal_text(REQUEST_TIMEOUT_SECS).as_str());
    out.append("s");
    out
}

impl Hub {
    /// A hub without connections.
    pub fn new() -> (r: Self)
        ensures
            r@ == fresh_hub(),
            hub_wf(r@),
    {
        broadcast use vstd::std_specs::hash::group_hash_axioms;

        let hub = Hub { conns: HashMap::new(), extension_id: None, pending: StringHashMap::new() };
        assert(hub@ =~= fresh_hub());
        hub
    }

    /// Whether a connection is registered.
    fn has(&self, conn_id: u64) -> (r: bool)
        ensures
            r == self@.conns.contains_key(conn_id),
    {
        broadcast use vstd::std_specs::hash::group_hash_axioms;

        self.conns.contains_key(&conn_id)
    }

    /// A message to a connection, if that is registered.
    fn send(&self, to: u64, msg: WireMessage) -> (r: Vec<Action>)
        ensures
            action_views(r@) == reply(self@, to, msg@),
    {
        let mut actions: Vec<Action> = Vec::new();
        if self.has(to) {
            actions.push(Action::Send { to, msg });
        }
        assert(action_views(actions@) =~= reply(self@, to, msg@));
        actions
    }

    fn forget_pending(&mut self)
        ensures
            final(self)@ == (HubView { pending: Map::empty(), ..old(self)@ }),
    {
        self.pending.clear();
        assert(self@ =~= HubView { pending: Map::empty(), ..old(self)@ });
    }

    fn drop_conn(&mut self, conn_id: u64)
        ensures
            final(self)@ == (HubView { conns: old(self)@.conns.remove(conn_id), ..old(self)@ }),
    {
        broadcast use vstd::std_specs::hash::group_hash_axioms;

        self.conns.remove(&conn_id);
        assert(self@.conns =~= old(self)@.conns.remove(conn_id));
    }

    /// A connection declares itself.
    fn register(&mut self, conn_id: u64, role: Role, client_id: Option<String>) -> (r: Vec<Action>)
        ensures
            (final(self)@, action_views(r@)) == registered(
                old(self)@,
                conn_id,
                role,
                opt_text(client_id),
            ),
    {
        broadcast use vstd::std_specs::hash::group_hash_axioms;

        let mut actions: Vec<Action> = Vec::new();
        if role == Role::Extension {
            if let Some(old_id) = self.extension_id {
                self.drop_conn(old_id);
                self.forget_pending();
                actions.push(Action::Close { conn_id: old_id });
                actions.push(Action::CancelTimers);
            }
            self.extension_id = Some(conn_id);
        }
        let ghost mid = self@;
        self.conns.insert(conn_id, Conn { role, client_id });
        proof {
            let next = registered(old(self)@, conn_id, role, opt_text(client_id));
            assert(self@.conns =~= mid.conns.insert(
                conn_id,
                ConnView { role, client_id: opt_text(client_id) },
            ));
            assert(self@ =~= next.0);
            assert(action_views(actions@) =~= next.1);
        }
        actions
    }

    /// A connection ends.
    fn unregister(&mut self, conn_id: u64) -> (r: Vec<Action>)
        ensures
            (final(self)@, action_views(r@)) == unregistered(old(self)@, conn_id),
    {
        let mut actions: Vec<Action> = Vec::new();
        let known = self.has(conn_id);
        let is_extension = match self.extension_id {
            Some(ext) => ext == conn_id,
            None => false,
        };
        if is_extension {
            self.extension_id = None;
            self.forget_pending();
            actions.push(Action::CancelTimers);
        }
        self.drop_conn(conn_id);
        if known {
            actions.push(Action::Close { conn_id });
        }
        proof {
            let next = unregistered(old(self)@, conn_id);
            assert(self@ =~= next.0);
            assert(action_views(actions@) =~= next.1);
        }
        actions
    }

    /// Handles a message from a client.
    pub fn handle_client(&mut self, client: u64, msg: WireMessage) -> (r: Vec<Action>)
        ensures
            (final(self)@, action_views(r@)) == client_sent(old(self)@, client, msg@),
            hub_wf(old(self)@) ==> hub_wf(final(self)@),
    {
        broadcast use vstd::std_specs::hash::group_hash_axioms;

        let id = match pairing_id(&msg) {
            Some(id) => id,
            None => {
                return self.send(client, WireMessage::err("", "missing id"));
            },
        };
        if pings(&msg) {
            return self.send(client, WireMessage::ok(id.as_str(), pong()));
        }
        let ext = match self.extension_id {
            Some(ext) => ext,
            None => {
                return self.send(client, WireMessage::err(id.as_str(), "no extension connected"));
            },
        };
        let mut actions: Vec<Action> = Vec::new();
        if !self.has(ext) {
            assert(action_views(actions@) =~= Seq::empty());
            return actions;
        }
        let client_id = match self.conns.get(&client) {
            Some(conn) => copy_text(&conn.client_id),
            None => {
                assert(action_views(actions@) =~= Seq::empty());
                return actions;
            },
        };
        let ghost asked = msg@;
        let mut msg = msg;
        msg.client_id = client_id;
        actions.push(Action::Send { to: ext, msg });
        if self.pending.contains_key(id.as_str()) {
            actions.push(Action::CancelTimer { id: id.clone() });
        }
        actions.push(Action::StartTimer { id: id.clone() });
        self.pending.insert(id, client);
        proof {
            let next = client_sent(old(self)@, client, asked);
            assert(self@ =~= next.0);
            assert(action_views(actions@) =~= next.1);
        }
        actions
    }

    /// Handles a message from the extension.
    pub fn handle_extension(&mut self, conn_id: u64, msg: WireMessage) -> (r: Vec<Action>)
        ensures
            (final(self)@, action_views(r@)) == extension_sent(old(self)@, conn_id, msg@),
            hub_wf(old(self)@) ==> hub_wf(final(self)@),
    {
        let id = match pairing_id(&msg) {
            Some(id) => id,
            None => {
                let none: Vec<Action> = Vec::new();
                assert(action_views(none@) =~= Seq::empty());
                return none;
            },
        };
        if pings(&msg) {
            return self.send(conn_id, WireMessage::ok(id.as_str(), pong()));
        }
        self.answer(id, msg, true)
    }

    /// Ends the request with an id, if it is under way, with a message to its
    /// client.
    fn answer(&mut self, id: String, msg: WireMessage, stop_timer: bool) -> (r: Vec<Action>)
        ensures
            final(self)@ == if old(self)@.pending.contains_key(id@) {
                HubView { pending: old(self)@.pending.remove(id@), ..old(self)@ }
            } else {
                old(self)@
            },
            action_views(r@) == if old(self)@.pending.contains_key(id@) {
                (if stop_timer {
                    seq![ActionView::CancelTimer { id: id@ }]
                } else {
                    Seq::empty()
                }) + reply(old(self)@, old(self)@.pending[id@], msg@)
            } else {
                Seq::empty()
            },
    {
        let mut actions: Vec<Action> = Vec::new();
        let found = match self.pending.get(id.as_str()) {
            Some(client) => Some(*client),
            None => None,
        };
        if let Some(client) = found {
            self.pending.remove(id.as_str());
            if stop_timer {
                actions.push(Action::CancelTimer { id: id.clone() });
            }
            if self.has(client) {
                actions.push(Action::Send { to: client, msg });
            }
        }
        proof {
            assert(self@.conns =~= old(self)@.conns);
            assert(found is Some ==> self@.pending =~= old(self)@.pending.remove(id@));
            let reply_to = reply(old(self)@, old(self)@.pending[id@], msg@);
            assert(found is Some ==> action_views(actions@) =~= (if stop_timer {
                seq![ActionView::CancelTimer { id: id@ }]
            } else {
                Seq::empty()
            }) + reply_to);
            assert(found is None ==> action_views(actions@) =~= Seq::empty());
        }
        actions
    }

    /// Takes an event and says what is to be done about it.
    pub fn handle(&mut self, event: HubMsg) -> (r: Vec<Action>)
        ensures
            (final(self)@, action_views(r@)) == hub_next(old(self)@, event@),
            hub_wf(old(self)@) ==> hub_wf(final(self)@),
    {
        broadcast use vstd::std_specs::hash::group_hash_axioms;

        proof {
            if hub_wf(self@) {
                crate::routing::law_hub_invariant(self@, event@);
            }
        }
        match event {
            HubMsg::Register { conn_id, role, name, client_id } => {
                self.register(conn_id, role, client_id)
            },
            HubMsg::Unregister { conn_id } => self.unregister(conn_id),
            HubMsg::Forward { conn_id, msg } => {
                let role = match self.conns.get(&conn_id) {
                    Some(conn) => Some(conn.role),
                    None => None,
                };
                match role {
                    Some(Role::Client) => self.handle_client(conn_id, msg),
                    Some(Role::Extension) => self.handle_extension(conn_id, msg),
                    None => {
                        let none: Vec<Action> = Vec::new();
                        assert(action_views(none@) =~= Seq::empty());
                        none
                    },
                }
            },
            HubMsg::TimedOut { id } => {
                let msg = WireMessage::err(id.as_str(), timeout_message().as_str());
                self.answer(id, msg, false)
            },
        }
    }
}

} // verus!
