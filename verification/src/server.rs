//! Status map and WebSocket server rules.
//!
//! The status map tracks the state of each loaded config.  The server accepts
//! browser clients and forwards every broadcast message to each of them.

use crate::globs::texts;
use crate::ordered::{with_key, OrderedMap};
use crate::text::{decimal, push_decimal};
use vstd::prelude::*;
use vstd::string::*;

verus! {

/// The state of each loaded config.
///
/// Keys are config names; values are human-readable states such as
/// `"up to date"` or `"reloading"`.
pub struct StatusMap {
    entries: OrderedMap<String>,
}

/// What a [`StatusMap`] holds.
#[verifier::ext_equal]
pub struct StatusModel {
    /// The config names in the order in which they came in.
    pub names: Seq<Seq<char>>,
    /// The state of each.
    pub states: Map<Seq<char>, Seq<char>>,
}

/// The state of a config with nothing to do.
pub open spec fn up_to_date() -> Seq<char> {
    "up to date"@
}

impl View for StatusMap {
    type V = StatusModel;

    closed spec fn view(&self) -> StatusModel {
        StatusModel {
            names: self.entries.keys(),
            states: self.entries@.map_values(|s: String| s@),
        }
    }
}

/// The names listed are the ones with a state, each listed once.
pub open spec fn names_agree(m: StatusModel) -> bool {
    &&& m.names.no_duplicates()
    &&& forall|k: Seq<char>| #[trigger] m.states.contains_key(k) <==> m.names.contains(k)
}

/// The names, each once, in the order in which they first occur.
pub open spec fn distinct(names: Seq<Seq<char>>) -> Seq<Seq<char>>
    decreases names.len(),
{
    if names.len() == 0 {
        Seq::empty()
    } else {
        with_key(distinct(names.drop_last()), names.last())
    }
}

/// A map in which each of the given names is up to date.
pub open spec fn all_up_to_date(names: Seq<Seq<char>>) -> StatusModel {
    StatusModel {
        names: distinct(names),
        states: Map::new(|k: Seq<char>| names.contains(k), |k: Seq<char>| up_to_date()),
    }
}

/// The map with the state of one config set.
pub open spec fn with_state(m: StatusModel, name: Seq<char>, state: Seq<char>) -> StatusModel {
    StatusModel {
        names: with_key(m.names, name),
        states: m.states.insert(name, state),
    }
}

impl StatusMap {
    /// The map is well-formed.
    pub closed spec fn wf(&self) -> bool {
        self.entries.wf()
    }

    /// In a well-formed map the names listed are the ones with a state.
    pub proof fn lemma_wf(&self)
        requires
            self.wf(),
        ensures
            names_agree(self@),
    {
        self.entries.lemma_domain();
        assert forall|k: Seq<char>| #[trigger] self@.states.contains_key(k)
            <==> self@.names.contains(k) by {
            assert(self.entries@.contains_key(k) <==> self.entries.keys().contains(k));
        }
    }

    /// An empty map.
    pub fn new() -> (m: Self)
        ensures
            m.wf(),
            m@ == (StatusModel { names: Seq::empty(), states: Map::empty() }),
    {
        let m = StatusMap { entries: OrderedMap::new() };
        assert(m@.states =~= Map::<Seq<char>, Seq<char>>::empty());
        m
    }

    /// Sets the state of a config.
    pub fn set(&mut self, name: &str, status: &str)
        requires
            old(self).wf(),
        ensures
            final(self).wf(),
            final(self)@ == with_state(old(self)@, name@, status@),
    {
        self.entries.insert(name.to_owned(), status.to_owned());
        assert(self@.states =~= old(self)@.states.insert(name@, status@));
    }

    /// The state of a config.
    pub fn get(&self, name: &str) -> (r: Option<&String>)
        requires
            self.wf(),
        ensures
            match r {
                Some(s) => self@.states.contains_key(name@) && s@ == self@.states[name@],
                None => !self@.states.contains_key(name@),
            },
    {
        self.entries.get(name)
    }

    /// The number of configs.
    pub fn len(&self) -> (n: usize)
        ensures
            n == self@.names.len(),
    {
        self.entries.len()
    }

    /// The name of the `i`-th config.
    pub fn name_at(&self, i: usize) -> (s: &String)
        requires
            i < self@.names.len(),
        ensures
            s@ == self@.names[i as int],
    {
        self.entries.key_at(i)
    }

    /// The state of the `i`-th config.
    pub fn state_at(&self, i: usize) -> (s: &String)
        requires
            self.wf(),
            i < self@.names.len(),
        ensures
            self@.states.contains_key(self@.names[i as int]),
            s@ == self@.states[self@.names[i as int]],
    {
        self.entries.value_at(i)
    }

    /// Marks every config as up to date.
    pub fn reset(&mut self)
        requires
            old(self).wf(),
        ensures
            final(self).wf(),
            final(self)@ == reset_states(old(self)@),
    {
        let ghost before = self@;
        let n: usize = self.len();
        let mut i: usize = 0;
        proof {
            self.lemma_wf();
        }
        while i < n
            invariant
                self.wf(),
                i <= n == before.names.len(),
                names_agree(before),
                self@.names == before.names,
                forall|k: Seq<char>| #[trigger]
                    self@.states.contains_key(k) <==> before.states.contains_key(k),
                forall|j: int|
                    0 <= j < i ==> self@.states[#[trigger] before.names[j]] == up_to_date(),
            decreases n - i,
        {
            let name = self.name_at(i).clone();
            let ghost earlier = self@;
            self.set(name.as_str(), "up to date");
            proof {
                assert(before.names.contains(before.names[i as int]));
                assert(self@.names =~= before.names);
                assert forall|k: Seq<char>| #[trigger] self@.states.contains_key(k)
                    <==> before.states.contains_key(k) by {
                    assert(earlier.states.contains_key(k) <==> before.states.contains_key(k));
                    assert(before.states.contains_key(before.names[i as int]));
                }
            }
            i = i + 1;
        }
        proof {
            assert forall|k: Seq<char>| #[trigger] self@.states.contains_key(k) implies self@.states[k]
                == up_to_date() by {
                assert(before.states.contains_key(k));
                let j = choose|j: int| 0 <= j < before.names.len() && before.names[j] == k;
                assert(self@.states[before.names[j]] == up_to_date());
            }
            assert(self@.states =~= reset_states(before).states);
            assert(self@ =~= reset_states(before));
        }
    }
}

/// The map with every config up to date.
pub open spec fn reset_states(m: StatusModel) -> StatusModel {
    StatusModel {
        names: m.names,
        states: Map::new(|k: Seq<char>| m.states.contains_key(k), |k: Seq<char>| up_to_date()),
    }
}

/// Creates a status map with `"up to date"` for every config name in `names`.
pub fn new_status_map(names: Vec<String>) -> (m: StatusMap)
    ensures
        m.wf(),
        m@ == all_up_to_date(texts(names@)),
{
    let mut m = StatusMap::new();
    let ghost all = texts(names@);
    let mut i: usize = 0;
    assert(all.take(0) =~= Seq::<Seq<char>>::empty());
    assert(m@.states =~= all_up_to_date(all.take(0)).states);
    while i < names.len()
        invariant
            m.wf(),
            i <= names@.len(),
            all == texts(names@),
            m@ == all_up_to_date(all.take(i as int)),
        decreases names@.len() - i,
    {
        let ghost before = m@;
        m.set(names[i].as_str(), "up to date");
        proof {
            let done = all.take(i as int);
            let next = all.take(i + 1);
            let name = all[i as int];
            assert(name == names@[i as int]@);
            assert(next.drop_last() =~= done);
            assert(next.last() == name);
            assert(next =~= done.push(name));
            assert forall|k: Seq<char>| next.contains(k) <==> done.contains(k) || k == name by {
                if done.contains(k) {
                    let j = choose|j: int| 0 <= j < done.len() && done[j] == k;
                    assert(next[j] == k);
                }
                assert(next[i as int] == name);
                if next.contains(k) && k != name {
                    let j = choose|j: int| 0 <= j < next.len() && next[j] == k;
                    assert(done[j] == k);
                }
            }
            assert(m@.states =~= all_up_to_date(next).states);
            assert(m@ =~= all_up_to_date(next));
        }
        i = i + 1;
    }
    assert(all.take(all.len() as int) =~= all);
    m
}

/// Updates a single entry in the status map.
pub fn set_status(statuses: &mut StatusMap, name: &str, status: &str)
    requires
        old(statuses).wf(),
    ensures
        final(statuses).wf(),
        final(statuses)@ == with_state(old(statuses)@, name@, status@),
{
    statuses.set(name, status);
}

/// Reading back a state gives what was set last, and the other configs keep
/// theirs.
pub proof fn law_set_state_is_read_back(
    m: StatusModel,
    name: Seq<char>,
    state: Seq<char>,
    other: Seq<char>,
)
    ensures
        with_state(m, name, state).states.contains_key(name),
        with_state(m, name, state).states[name] == state,
        other != name ==> with_state(m, name, state).states.contains_key(other)
            == m.states.contains_key(other),
        other != name && m.states.contains_key(other) ==> with_state(m, name, state).states[other]
            == m.states[other],
{
}

/// How long a client may take for the WebSocket handshake, in milliseconds.
pub const HANDSHAKE_TIMEOUT_MS: u64 = 10_000;

/// How long to wait after a failed accept, in milliseconds.
pub const ACCEPT_BACKOFF_MS: u64 = 1_000;

/// What the accept loop waited for.
#[derive(Debug, Clone, Copy, PartialEq, Eq, Structural)]
pub enum AcceptEvent {
    /// The server is shutting down.
    Shutdown,
    /// A connection came in.
    Accepted,
    /// Accepting failed.
    Failed,
}

/// What the accept loop does next.
#[derive(Debug, Clone, Copy, PartialEq, Eq, Structural)]
pub enum AcceptStep {
    /// End.
    Stop,
    /// Serve the connection.
    Serve,
    /// Close the connection: there are as many clients as there may be.
    Refuse,
    /// Try again after [`ACCEPT_BACKOFF_MS`].
    Backoff,
}

/// Whether there is room for another client beside those admitted.
pub open spec fn has_room(admitted: usize, max_connections: Option<u32>) -> bool {
    match max_connections {
        Some(max) => admitted < max,
        None => admitted < usize::MAX,
    }
}

/// What the accept loop does, and how many clients are admitted then.
pub open spec fn accept_transition(
    event: AcceptEvent,
    admitted: usize,
    max_connections: Option<u32>,
) -> (AcceptStep, usize) {
    match event {
        AcceptEvent::Shutdown => (AcceptStep::Stop, admitted),
        AcceptEvent::Accepted => if has_room(admitted, max_connections) {
            (AcceptStep::Serve, (admitted + 1) as usize)
        } else {
            (AcceptStep::Refuse, admitted)
        },
        AcceptEvent::Failed => (AcceptStep::Backoff, admitted),
    }
}

/// Decides what the accept loop does, given the number of admitted clients and how
/// many there may be.  Also returns the number of admitted clients then.
///
/// A client is admitted from the moment it is served, before its handshake, until
/// it is gone (see [`admitted_after`]): the handshake of one must not let another
/// one in beyond the limit.
pub fn accept_step(
    event: AcceptEvent,
    admitted: usize,
    max_connections: Option<u32>,
) -> (r: (AcceptStep, usize))
    ensures
        r == accept_transition(event, admitted, max_connections),
{
    match event {
        AcceptEvent::Shutdown => (AcceptStep::Stop, admitted),
        AcceptEvent::Accepted => {
            let room: bool = match max_connections {
                Some(max) => admitted < max as usize,
                None => admitted < usize::MAX,
            };
            if room {
                (AcceptStep::Serve, admitted + 1)
            } else {
                (AcceptStep::Refuse, admitted)
            }
        },
        AcceptEvent::Failed => (AcceptStep::Backoff, admitted),
    }
}

/// How far a client has come.
#[derive(Debug, Clone, Copy, PartialEq, Eq, Structural)]
pub enum ClientPhase {
    /// The handshake is not complete.
    Handshake,
    /// Messages are forwarded.
    Connected,
    /// The client is gone.
    Gone,
}

/// What a client's connection brings.
#[derive(Debug, Clone, Copy, PartialEq, Eq, Structural)]
pub enum ClientEvent {
    /// The handshake is complete.
    HandshakeDone,
    /// The handshake failed or took longer than [`HANDSHAKE_TIMEOUT_MS`].
    HandshakeFailed,
    /// The client sent something.
    Frame,
    /// The connection ended or broke.
    Ended,
    /// The server is shutting down.
    Shutdown,
}

/// What to do about a client.
#[derive(Debug, Clone, Copy, PartialEq, Eq, Structural)]
pub enum ClientStep {
    /// Count it as connected and start to forward messages.
    Open,
    /// Go on: what a client sends is ignored.
    Continue,
    /// Stop forwarding and take it off the count of connected clients.
    Close,
    /// Let it go; it never was connected.
    Drop,
}

/// What happens to a client in a given phase.
pub open spec fn client_transition(phase: ClientPhase, event: ClientEvent) -> (
    ClientPhase,
    ClientStep,
) {
    match phase {
        ClientPhase::Handshake => match event {
            ClientEvent::HandshakeDone => (ClientPhase::Connected, ClientStep::Open),
            ClientEvent::HandshakeFailed => (ClientPhase::Gone, ClientStep::Drop),
            _ => (ClientPhase::Handshake, ClientStep::Continue),
        },
        ClientPhase::Connected => match event {
            ClientEvent::Ended => (ClientPhase::Gone, ClientStep::Close),
            ClientEvent::Shutdown => (ClientPhase::Gone, ClientStep::Close),
            _ => (ClientPhase::Connected, ClientStep::Continue),
        },
        ClientPhase::Gone => (ClientPhase::Gone, ClientStep::Continue),
    }
}

/// Decides what happens to a client.
pub fn client_step(phase: ClientPhase, event: ClientEvent) -> (r: (ClientPhase, ClientStep))
    ensures
        r == client_transition(phase, event),
{
    match phase {
        ClientPhase::Handshake => match event {
            ClientEvent::HandshakeDone => (ClientPhase::Connected, ClientStep::Open),
            ClientEvent::HandshakeFailed => (ClientPhase::Gone, ClientStep::Drop),
            _ => (ClientPhase::Handshake, ClientStep::Continue),
        },
        ClientPhase::Connected => match event {
            ClientEvent::Ended => (ClientPhase::Gone, ClientStep::Close),
            ClientEvent::Shutdown => (ClientPhase::Gone, ClientStep::Close),
            _ => (ClientPhase::Connected, ClientStep::Continue),
        },
        ClientPhase::Gone => (ClientPhase::Gone, ClientStep::Continue),
    }
}

/// The phase of a client after some events, and by how much it has changed the
/// number of connected clients.
pub open spec fn after_events(events: Seq<ClientEvent>) -> (ClientPhase, int)
    decreases events.len(),
{
    if events.len() == 0 {
        (ClientPhase::Handshake, 0)
    } else {
        let (phase, count) = after_events(events.drop_last());
        let (next, step) = client_transition(phase, events.last());
        (
            next,
            match step {
                ClientStep::Open => count + 1,
                ClientStep::Close => count - 1,
                _ => count,
            },
        )
    }
}

/// Whatever happens to a client, it counts as one exactly while it is
/// connected: once it is gone, it has left the count as it found it.
pub proof fn law_client_is_counted_while_connected(events: Seq<ClientEvent>)
    ensures
        after_events(events).1 == if after_events(events).0 is Connected {
            1int
        } else {
            0int
        },
    decreases events.len(),
{
    if events.len() > 0 {
        law_client_is_counted_while_connected(events.drop_last());
    }
}

/// How many clients are admitted after a step of one of them: a client that is let
/// go or closed is admitted no more.
pub open spec fn admitted_then(admitted: usize, step: ClientStep) -> usize {
    match step {
        ClientStep::Open => admitted,
        ClientStep::Continue => admitted,
        ClientStep::Close => if admitted == 0 {
            0
        } else {
            (admitted - 1) as usize
        },
        ClientStep::Drop => if admitted == 0 {
            0
        } else {
            (admitted - 1) as usize
        },
    }
}

/// Counts the admitted clients after a step of one of them.
pub fn admitted_after(admitted: usize, step: ClientStep) -> (n: usize)
    ensures
        n == admitted_then(admitted, step),
{
    match step {
        ClientStep::Open => admitted,
        ClientStep::Continue => admitted,
        ClientStep::Close => admitted.saturating_sub(1),
        ClientStep::Drop => admitted.saturating_sub(1),
    }
}

/// Something that happens at the server.
pub enum ServerEvent {
    /// The accept loop waited for something.
    Accept(AcceptEvent),
    /// The connection of a client brings something; clients are numbered in the
    /// order in which they are served.
    Client(int, ClientEvent),
}

/// The clients that a server has served.
#[verifier::ext_equal]
pub struct ServerModel {
    /// How many clients are admitted.
    pub admitted: usize,
    /// How far each client that was ever served has come.
    pub clients: Seq<ClientPhase>,
}

/// The server after some events, which each take the count of admitted clients as
/// the one before left it.
pub open spec fn server_after(
    events: Seq<ServerEvent>,
    max_connections: Option<u32>,
) -> ServerModel
    decreases events.len(),
{
    if events.len() == 0 {
        ServerModel { admitted: 0, clients: Seq::empty() }
    } else {
        let before = server_after(events.drop_last(), max_connections);
        match events.last() {
            ServerEvent::Accept(event) => {
                let (step, admitted) = accept_transition(event, before.admitted, max_connections);
                ServerModel {
                    admitted,
                    clients: if step is Serve {
                        before.clients.push(ClientPhase::Handshake)
                    } else {
                        before.clients
                    },
                }
            },
            ServerEvent::Client(i, event) => if 0 <= i < before.clients.len() {
                let (phase, step) = client_transition(before.clients[i], event);
                ServerModel {
                    admitted: admitted_then(before.admitted, step),
                    clients: before.clients.update(i, phase),
                }
            } else {
                before
            },
        }
    }
}

/// How many clients are connected.
pub open spec fn connected(clients: Seq<ClientPhase>) -> nat
    decreases clients.len(),
{
    if clients.len() == 0 {
        0
    } else {
        connected(clients.drop_last()) + if clients.last() is Connected {
            1nat
        } else {
            0nat
        }
    }
}

/// How many clients are connected or in their handshake.
pub open spec fn present(clients: Seq<ClientPhase>) -> nat
    decreases clients.len(),
{
    if clients.len() == 0 {
        0
    } else {
        present(clients.drop_last()) + if clients.last() is Gone {
            0nat
        } else {
            1nat
        }
    }
}

/// The number of present clients when one of them moves on to another phase.
proof fn lemma_present_update(clients: Seq<ClientPhase>, i: int, phase: ClientPhase)
    requires
        0 <= i < clients.len(),
    ensures
        present(clients.update(i, phase)) == present(clients) - (if clients[i] is Gone {
            0int
        } else {
            1int
        }) + (if phase is Gone {
            0int
        } else {
            1int
        }),
    decreases clients.len(),
{
    let after = clients.update(i, phase);
    if i == clients.len() - 1 {
        assert(after.drop_last() =~= clients.drop_last());
    } else {
        lemma_present_update(clients.drop_last(), i, phase);
        assert(after.drop_last() =~= clients.drop_last().update(i, phase));
    }
}

/// Connected clients are present.
proof fn lemma_connected_are_present(clients: Seq<ClientPhase>)
    ensures
        connected(clients) <= present(clients),
    decreases clients.len(),
{
    if clients.len() > 0 {
        lemma_connected_are_present(clients.drop_last());
    }
}

/// The limit on clients holds: whatever connections come in and whatever happens to
/// them, in any order, never are more clients connected than there may be, not even
/// counting those in their handshake.
pub proof fn law_client_limit_holds(events: Seq<ServerEvent>, max_connections: Option<u32>)
    ensures
        ({
            let server = server_after(events, max_connections);
            &&& server.admitted == present(server.clients)
            &&& connected(server.clients) <= server.admitted
            &&& max_connections is Some ==> server.admitted <= max_connections->0
        }),
    decreases events.len(),
{
    let server = server_after(events, max_connections);
    lemma_connected_are_present(server.clients);
    if events.len() > 0 {
        let before = server_after(events.drop_last(), max_connections);
        law_client_limit_holds(events.drop_last(), max_connections);
        match events.last() {
            ServerEvent::Accept(event) => {
                assert(before.clients.push(ClientPhase::Handshake).drop_last() =~= before.clients);
            },
            ServerEvent::Client(i, event) => {
                if 0 <= i < before.clients.len() {
                    let phase = client_transition(before.clients[i], event).0;
                    lemma_present_update(before.clients, i, phase);
                }
            },
        }
    }
}

/// A connection is refused only if as many clients are there as there may be.
pub proof fn law_refused_only_at_the_limit(events: Seq<ServerEvent>, max: u32)
    ensures
        ({
            let server = server_after(events, Some(max));
            accept_transition(AcceptEvent::Accepted, server.admitted, Some(max)).0 is Refuse
                <==> present(server.clients) == max
        }),
{
    law_client_limit_holds(events, Some(max));
}

/// What the forwarding loop of a client waited for.
#[derive(Debug)]
pub enum ForwardEvent {
    /// A broadcast message came in.
    Message(String),
    /// The client was too slow and missed some messages.
    Lagged(u64),
    /// There will be no more messages.
    Closed,
    /// The server is shutting down.
    Shutdown,
    /// A message could not be sent to the client.
    SendFailed,
}

/// What the forwarding loop does next.
#[derive(Debug)]
pub enum ForwardStep {
    /// Send the message to the client.
    Send(String),
    /// Go on with the next message.
    Continue,
    /// End.
    Stop,
}

/// What the forwarding loop does about an event.
pub open spec fn forwarding(event: ForwardEvent) -> ForwardStep {
    match event {
        ForwardEvent::Message(text) => ForwardStep::Send(text),
        ForwardEvent::Lagged(_) => ForwardStep::Continue,
        _ => ForwardStep::Stop,
    }
}

/// Every message is sent as it is and a client that missed some stays connected; the loop ends
/// only when there is nothing left to send or it cannot be sent.
pub proof fn law_messages_are_forwarded(text: String, missed: u64, event: ForwardEvent)
    ensures
        forwarding(ForwardEvent::Message(text)) == ForwardStep::Send(text),
        forwarding(ForwardEvent::Lagged(missed)) is Continue,
        forwarding(event) is Stop <==> event is Closed || event is Shutdown || event is SendFailed,
        forwarding(event) is Send <==> event is Message,
{
}

/// Decides what the forwarding loop does: every message is sent as it is, and a
/// client that missed some stays connected.
pub fn forward_step(event: ForwardEvent) -> (step: ForwardStep)
    ensures
        step == forwarding(event),
        step == match event {
            ForwardEvent::Message(text) => ForwardStep::Send(text),
            ForwardEvent::Lagged(_) => ForwardStep::Continue,
            ForwardEvent::Closed => ForwardStep::Stop,
            ForwardEvent::Shutdown => ForwardStep::Stop,
            ForwardEvent::SendFailed => ForwardStep::Stop,
        },
{
    match event {
        ForwardEvent::Message(text) => ForwardStep::Send(text),
        ForwardEvent::Lagged(_) => ForwardStep::Continue,
        ForwardEvent::Closed => ForwardStep::Stop,
        ForwardEvent::Shutdown => ForwardStep::Stop,
        ForwardEvent::SendFailed => ForwardStep::Stop,
    }
}

/// The head of the reply to a metrics request with a body of `length` bytes.
pub open spec fn metrics_head_text(content_type: Seq<char>, length: nat) -> Seq<char> {
    "HTTP/1.1 200 OK\r\nContent-Type: "@ + content_type + "\r\nContent-Length: "@ + decimal(length)
        + "\r\nConnection: close\r\n\r\n"@
}

/// The head of the reply to a metrics request.
pub fn metrics_head(content_type: &str, length: usize) -> (r: String)
    ensures
        r@ == metrics_head_text(content_type@, length as nat),
{
    let mut r: String = "HTTP/1.1 200 OK\r\nContent-Type: ".to_owned();
    r.append(content_type);
    r.append("\r\nContent-Length: ");
    push_decimal(&mut r, length as u64);
    r.append("\r\nConnection: close\r\n\r\n");
    r
}

/// The reply to a metrics request when the metrics cannot be rendered.
pub const METRICS_FAILURE: &'static str =
    "HTTP/1.1 500 Internal Server Error\r\nContent-Length: 0\r\nConnection: close\r\n\r\n";

/// A new status map lists every name once, in the order in which they first occur, each as
/// up to date, and no other.
pub proof fn law_new_status_map(names: Seq<Seq<char>>, name: Seq<char>)
    ensures
        ({
            let m = all_up_to_date(names);
            &&& m.states.contains_key(name) <==> names.contains(name)
            &&& names.contains(name) ==> m.states[name] == "up to date"@
            &&& m.names.contains(name) <==> names.contains(name)
            &&& m.names.no_duplicates()
            &&& names.no_duplicates() ==> m.names == names
            &&& names.len() > 0 ==> all_up_to_date(names.drop_last()).names.is_prefix_of(m.names)
        }),
    decreases names.len(),
{
    let m = all_up_to_date(names);
    if names.len() > 0 {
        let rest = names.drop_last();
        let last = names.last();
        let before = distinct(rest);
        law_new_status_map(rest, name);
        law_new_status_map(rest, last);
        crate::ordered::law_new_key_goes_to_the_end(before, last);
        assert(rest.push(last) =~= names);
        if rest.contains(name) {
            let i = choose|i: int| 0 <= i < rest.len() && rest[i] == name;
            assert(names[i] == name);
        }
        if names.contains(name) && name != last {
            let i = choose|i: int| 0 <= i < names.len() && names[i] == name;
            assert(rest[i] == name);
        }
        assert(names[names.len() - 1] == last);
        if !before.contains(last) {
            let all = before.push(last);
            assert(all[before.len() as int] == last);
            if before.contains(name) {
                let i = choose|i: int| 0 <= i < before.len() && before[i] == name;
                assert(all[i] == name);
            }
            if all.contains(name) && name != last {
                let i = choose|i: int| 0 <= i < all.len() && all[i] == name;
                assert(before[i] == name);
            }
        }
        if names.no_duplicates() {
            assert(rest.no_duplicates());
            assert(!rest.contains(last)) by {
                if rest.contains(last) {
                    let i = choose|i: int| 0 <= i < rest.len() && rest[i] == last;
                    assert(names[i] == names[names.len() - 1]);
                }
            }
        }
    } else {
        assert(m.names =~= names);
    }
}

/// Setting the state of a config keeps the order of the configs; a new one goes to the
/// end.
pub proof fn law_set_state_keeps_the_order(m: StatusModel, name: Seq<char>, state: Seq<char>)
    ensures
        m.names.contains(name) ==> with_state(m, name, state).names == m.names,
        !m.names.contains(name) ==> with_state(m, name, state).names == m.names.push(name),
{
}

/// What the accept loop does about each event.  A connection is served while fewer clients
/// are admitted than there may be, and then counts as one more.
pub proof fn law_accept_loop(admitted: usize, max: Option<u32>)
    ensures
        accept_transition(AcceptEvent::Shutdown, admitted, max) == (AcceptStep::Stop, admitted),
        accept_transition(AcceptEvent::Failed, admitted, max) == (AcceptStep::Backoff, admitted),
        max is Some && admitted < max->0 ==> accept_transition(AcceptEvent::Accepted, admitted, max)
            == (AcceptStep::Serve, (admitted + 1) as usize),
        max is Some && admitted >= max->0 ==> accept_transition(
            AcceptEvent::Accepted,
            admitted,
            max,
        ) == (AcceptStep::Refuse, admitted),
        max is None && admitted < usize::MAX ==> accept_transition(
            AcceptEvent::Accepted,
            admitted,
            max,
        ) == (AcceptStep::Serve, (admitted + 1) as usize),
{
}

/// A client is connected from the end of its handshake until its connection ends or the
/// server shuts down; what it sends changes nothing, and once it is gone nothing does.
pub proof fn law_client_life(event: ClientEvent)
    ensures
        client_transition(ClientPhase::Handshake, ClientEvent::HandshakeDone) == (
            ClientPhase::Connected,
            ClientStep::Open,
        ),
        client_transition(ClientPhase::Handshake, ClientEvent::HandshakeFailed) == (
            ClientPhase::Gone,
            ClientStep::Drop,
        ),
        !(event is HandshakeDone) && !(event is HandshakeFailed) ==> client_transition(
            ClientPhase::Handshake,
            event,
        ) == (ClientPhase::Handshake, ClientStep::Continue),
        event is Ended || event is Shutdown ==> client_transition(ClientPhase::Connected, event)
            == (ClientPhase::Gone, ClientStep::Close),
        !(event is Ended) && !(event is Shutdown) ==> client_transition(
            ClientPhase::Connected,
            event,
        ) == (ClientPhase::Connected, ClientStep::Continue),
        client_transition(ClientPhase::Gone, event) == (ClientPhase::Gone, ClientStep::Continue),
{
}

/// The head of a metrics reply gives the type and the length of what follows, and ends in an
/// empty line.
pub proof fn law_metrics_head(content_type: Seq<char>, length: nat)
    ensures
        metrics_head_text(content_type, length) == "HTTP/1.1 200 OK\r\nContent-Type: "@
            + content_type + "\r\nContent-Length: "@ + decimal(length)
            + "\r\nConnection: close\r\n\r\n"@,
{
}

/// Resetting marks every config as up to date, and keeps which there are and their order.
pub proof fn law_reset_keeps_the_configs(m: StatusModel, name: Seq<char>)
    ensures
        reset_states(m).names == m.names,
        reset_states(m).states.contains_key(name) <==> m.states.contains_key(name),
        m.states.contains_key(name) ==> reset_states(m).states[name] == "up to date"@,
{
}

/// A client that is let go or closed makes room for one, and no other step changes how many
/// are admitted.
pub proof fn law_room_is_made_by_leaving(admitted: usize)
    requires
        admitted > 0,
    ensures
        admitted_then(admitted, ClientStep::Close) == admitted - 1,
        admitted_then(admitted, ClientStep::Drop) == admitted - 1,
        admitted_then(admitted, ClientStep::Open) == admitted,
        admitted_then(admitted, ClientStep::Continue) == admitted,
{
}

} // verus!
