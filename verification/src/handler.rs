//! What the proxy does with one client connection, as a state machine.
//!
//! The machine does no input or output itself. Whoever owns the sockets
//! performs the action that a step returns and reports what came of it as
//! the next event:
//!
//! * `ReadByte`, `ReadBody`: read from the client; report `Byte`, `Body`
//!   or `ReadFailed`.
//! * `Dial`: connect to the backend; report `Connected` or `DialFailed`.
//! * `Splice`: write the bytes to the backend, then relay both directions
//!   until one of them ends; report `SpliceEnded`.
//! * `Reply`, `WakeAndReply`, `Close`: the connection is over.
//!
//! A new connection starts with `ReadByte`.

use crate::config::{host_port, Config, RoutingMode};
use crate::error::ProxyError;
use crate::hostname::{normalize, routing_key};
use crate::packet::{framed, parse_body, HandshakeModel, HandshakeRequest, NextState};
use crate::proxy::{proxy_header, ProxyProtocol, SocketAddr};
use crate::reply::{disconnect_json_text, reply_bytes, reply_packet, status_json_of};
use crate::servers::{
    counted, incremented, lemma_route_index, lemma_with_count_keeps_routes, lookup, route_index,
    table_valid, CounterOp, EntryModel, Servers,
};
use crate::varint::{read_var_int, var_int_decoding};
use vstd::prelude::*;

verus! {

/// What happened since the last action.
#[derive(Debug, PartialEq, Eq)]
pub enum Event {
    /// The client sent this byte.
    Byte(u8),
    /// The client sent the body that was asked for.
    Body(Vec<u8>),
    /// The client sent nothing in time, or the read failed.
    ReadFailed,
    /// The backend accepted the connection; this is its address.
    Connected(SocketAddr),
    /// The backend could not be reached.
    DialFailed,
    /// One direction of the relay has ended.
    SpliceEnded,
}

/// What to do next.
#[derive(Debug, PartialEq, Eq)]
pub enum Action {
    /// Read one byte from the client.
    ReadByte,
    /// Read this many bytes from the client.
    ReadBody(usize),
    /// Connect to the backend at this address.
    Dial(String),
    /// Write the bytes to the client and close; the error says why the
    /// client is not served.
    Reply(ProxyError, Vec<u8>),
    /// Ask the control plane to start the backend with this id, without
    /// waiting for the outcome; write the bytes to the client and close.
    WakeAndReply(String, Vec<u8>),
    /// Write the bytes to the backend, then relay in both directions.
    Splice(Vec<u8>),
    /// Close without a word to the client. The error, if any, says why.
    Close(Option<ProxyError>),
}

/// The route of a connection that goes through the routing table.
#[derive(Debug)]
pub struct Route {
    /// The routing key of the handshake.
    pub key: String,
    /// The id of the backend for the control plane.
    pub server_id: String,
}

/// How far a connection has come.
#[derive(Debug)]
pub enum Phase {
    /// The size of the first packet is being read; these bytes of it are
    /// here.
    ReadingSize(Vec<u8>),
    /// The body of the first packet, of this size, is being read.
    ReadingBody(usize),
    /// The backend is being dialled.
    Dialing(HandshakeRequest, Option<Route>),
    /// Bytes are relayed. The key is the one whose player was counted.
    Splicing(Option<String>),
    /// The connection is over.
    Closed,
}

/// An event, as mathematical values.
pub enum EventModel {
    Byte(u8),
    Body(Seq<u8>),
    ReadFailed,
    Connected(SocketAddr),
    DialFailed,
    SpliceEnded,
}

/// An action, as mathematical values.
pub enum ActionModel {
    ReadByte,
    ReadBody(nat),
    Dial(Seq<char>),
    Reply(ProxyError, Seq<u8>),
    WakeAndReply(Seq<char>, Seq<u8>),
    Splice(Seq<u8>),
    Close(Option<ProxyError>),
}

/// A route, as mathematical values.
pub struct RouteModel {
    pub key: Seq<char>,
    pub server_id: Seq<char>,
}

/// A phase, as mathematical values.
pub enum PhaseModel {
    ReadingSize(Seq<u8>),
    ReadingBody(nat),
    Dialing(HandshakeModel, Option<RouteModel>),
    Splicing(Option<Seq<char>>),
    Closed,
}

impl View for Event {
    type V = EventModel;

    open spec fn view(&self) -> EventModel {
        match self {
            Event::Byte(b) => EventModel::Byte(*b),
            Event::Body(body) => EventModel::Body(body@),
            Event::ReadFailed => EventModel::ReadFailed,
            Event::Connected(peer) => EventModel::Connected(*peer),
            Event::DialFailed => EventModel::DialFailed,
            Event::SpliceEnded => EventModel::SpliceEnded,
        }
    }
}

impl View for Action {
    type V = ActionModel;

    open spec fn view(&self) -> ActionModel {
        match self {
            Action::ReadByte => ActionModel::ReadByte,
            Action::ReadBody(size) => ActionModel::ReadBody(*size as nat),
            Action::Dial(address) => ActionModel::Dial(address@),
            Action::Reply(reason, bytes) => ActionModel::Reply(*reason, bytes@),
            Action::WakeAndReply(id, bytes) => ActionModel::WakeAndReply(id@, bytes@),
            Action::Splice(bytes) => ActionModel::Splice(bytes@),
            Action::Close(reason) => ActionModel::Close(*reason),
        }
    }
}

impl View for Route {
    type V = RouteModel;

    open spec fn view(&self) -> RouteModel {
        RouteModel { key: self.key@, server_id: self.server_id@ }
    }
}

/// The model of a route that may be missing.
pub open spec fn route_model(route: Option<Route>) -> Option<RouteModel> {
    match route {
        Some(r) => Some(r@),
        None => None,
    }
}

/// The characters of a string that may be missing.
pub open spec fn key_model(key: Option<String>) -> Option<Seq<char>> {
    match key {
        Some(k) => Some(k@),
        None => None,
    }
}

impl View for Phase {
    type V = PhaseModel;

    open spec fn view(&self) -> PhaseModel {
        match self {
            Phase::ReadingSize(prefix) => PhaseModel::ReadingSize(prefix@),
            Phase::ReadingBody(size) => PhaseModel::ReadingBody(*size as nat),
            Phase::Dialing(handshake, route) => PhaseModel::Dialing(handshake@, route_model(*route)),
            Phase::Splicing(key) => PhaseModel::Splicing(key_model(*key)),
            Phase::Closed => PhaseModel::Closed,
        }
    }
}

/// A step of the machine: the phase and the routing table after it, and
/// the action to take.
pub struct Outcome {
    pub phase: PhaseModel,
    pub table: Seq<EntryModel>,
    pub action: ActionModel,
}

/// The end of a connection without a reply.
pub open spec fn closed(table: Seq<EntryModel>, reason: Option<ProxyError>) -> Outcome {
    Outcome { phase: PhaseModel::Closed, table, action: ActionModel::Close(reason) }
}

/// The document for a client whose host no route leads to.
pub open spec fn unknown_host_document(config: Config, state: NextState) -> Seq<char> {
    match state {
        NextState::Login => disconnect_json_text(config.unknown_host.kick_message@),
        NextState::Status => status_json_of(
            config.unknown_host.motd.protocol_name@,
            config.unknown_host.motd.text@,
        ),
    }
}

/// The document for a client whose backend is down; `waking` says whether
/// the backend is being started.
pub open spec fn offline_document(config: Config, state: NextState, waking: bool) -> Seq<char> {
    match state {
        NextState::Login => if waking {
            disconnect_json_text(config.offline_server.starting_message@)
        } else {
            disconnect_json_text(config.offline_server.kick_message@)
        },
        NextState::Status => status_json_of(
            config.offline_server.motd.protocol_name@,
            config.offline_server.motd.text@,
        ),
    }
}

/// Whether a failed dial asks the control plane to start the backend: only
/// for a login, only where the settings ask for it, and only for a backend
/// that the routing table named.
pub open spec fn wakes(config: Config, state: NextState, route: Option<RouteModel>) -> bool {
    config.auto_start && state == NextState::Login && route is Some
}

/// One more byte of the size has arrived.
pub open spec fn on_size_byte(prefix: Seq<u8>, byte: u8, table: Seq<EntryModel>) -> Outcome {
    let bytes = prefix.push(byte);
    match var_int_decoding(bytes) {
        Some((size, _)) => if size > 0 {
            Outcome {
                phase: PhaseModel::ReadingBody(size as nat),
                table,
                action: ActionModel::ReadBody(size as nat),
            }
        } else {
            closed(table, Some(ProxyError::Malformed))
        },
        None => if bytes.len() >= 5 {
            closed(table, Some(ProxyError::Malformed))
        } else {
            Outcome { phase: PhaseModel::ReadingSize(bytes), table, action: ActionModel::ReadByte }
        },
    }
}

/// The handshake has been read: find the backend, or answer in its place.
pub open spec fn on_handshake(
    handshake: HandshakeModel,
    mode: RoutingMode,
    config: Config,
    table: Seq<EntryModel>,
) -> Outcome {
    match mode {
        RoutingMode::PortSpan(port) => Outcome {
            phase: PhaseModel::Dialing(handshake, None),
            table,
            action: ActionModel::Dial(host_port(config.backend_server@, port)),
        },
        RoutingMode::Hostname => {
            let key = routing_key(handshake.server_address);
            match lookup(table, key) {
                Some(entry) => Outcome {
                    phase: PhaseModel::Dialing(
                        handshake,
                        Some(RouteModel { key, server_id: entry.id }),
                    ),
                    table,
                    action: ActionModel::Dial(entry.backend_server),
                },
                None => Outcome {
                    phase: PhaseModel::Closed,
                    table,
                    action: ActionModel::Reply(
                        ProxyError::UnknownHost,
                        reply_bytes(unknown_host_document(config, handshake.next_state)),
                    ),
                },
            }
        },
    }
}

/// The body of the first packet has arrived.
pub open spec fn on_body(
    size: nat,
    body: Seq<u8>,
    mode: RoutingMode,
    config: Config,
    table: Seq<EntryModel>,
) -> Outcome {
    if body.len() != size {
        closed(table, Some(ProxyError::Io))
    } else {
        match parse_body(body) {
            Some(handshake) => on_handshake(handshake, mode, config, table),
            None => closed(table, Some(ProxyError::Malformed)),
        }
    }
}

/// The key under which a connection is counted.
pub open spec fn counted_key(route: Option<RouteModel>) -> Option<Seq<char>> {
    match route {
        Some(r) => Some(r.key),
        None => None,
    }
}

/// `table` after `op` for the connection that is counted under `key`.
pub open spec fn counted_for(table: Seq<EntryModel>, key: Option<Seq<char>>, op: CounterOp) -> Seq<
    EntryModel,
> {
    match key {
        Some(k) => counted(table, k, op),
        None => table,
    }
}

/// The backend has accepted the connection: it is sent the preamble and
/// the handshake as the client sent it, and the player is counted.
pub open spec fn on_connected(
    handshake: HandshakeModel,
    route: Option<RouteModel>,
    client: SocketAddr,
    peer: SocketAddr,
    table: Seq<EntryModel>,
) -> Outcome {
    match proxy_header(client, peer) {
        Some(header) => Outcome {
            phase: PhaseModel::Splicing(counted_key(route)),
            table: counted_for(table, counted_key(route), CounterOp::Join),
            action: ActionModel::Splice(header + framed(handshake.raw_body)),
        },
        None => closed(table, Some(ProxyError::MixedFamilies)),
    }
}

/// The backend could not be reached: the client is told so, and the
/// backend is started where that is asked for.
pub open spec fn on_dial_failed(
    handshake: HandshakeModel,
    route: Option<RouteModel>,
    config: Config,
    table: Seq<EntryModel>,
) -> Outcome {
    let waking = wakes(config, handshake.next_state, route);
    let bytes = reply_bytes(offline_document(config, handshake.next_state, waking));
    Outcome {
        phase: PhaseModel::Closed,
        table,
        action: match route {
            Some(r) if waking => ActionModel::WakeAndReply(r.server_id, bytes),
            _ => ActionModel::Reply(ProxyError::BackendUnreachable, bytes),
        },
    }
}

/// What an event does to a connection.
pub open spec fn transition(
    phase: PhaseModel,
    client: SocketAddr,
    mode: RoutingMode,
    config: Config,
    table: Seq<EntryModel>,
    event: EventModel,
) -> Outcome {
    match phase {
        PhaseModel::ReadingSize(prefix) => match event {
            EventModel::Byte(byte) => on_size_byte(prefix, byte, table),
            _ => closed(table, Some(ProxyError::Io)),
        },
        PhaseModel::ReadingBody(size) => match event {
            EventModel::Body(body) => on_body(size, body, mode, config, table),
            _ => closed(table, Some(ProxyError::Io)),
        },
        PhaseModel::Dialing(handshake, route) => match event {
            EventModel::Connected(peer) => on_connected(handshake, route, client, peer, table),
            EventModel::DialFailed => on_dial_failed(handshake, route, config, table),
            _ => closed(table, Some(ProxyError::Io)),
        },
        PhaseModel::Splicing(key) => closed(counted_for(table, key, CounterOp::Leave), None),
        PhaseModel::Closed => closed(table, None),
    }
}

/// A backend of another address family than the client is never sent a
/// byte, and no player is counted for it.
pub proof fn lemma_mixed_families_close(
    handshake: HandshakeModel,
    route: Option<RouteModel>,
    client: SocketAddr,
    mode: RoutingMode,
    config: Config,
    table: Seq<EntryModel>,
    peer: SocketAddr,
)
    requires
        !(client is V4 <==> peer is V4),
    ensures
        transition(
            PhaseModel::Dialing(handshake, route),
            client,
            mode,
            config,
            table,
            EventModel::Connected(peer),
        ) == closed(table, Some(ProxyError::MixedFamilies)),
{
}

/// A player that was counted when the relay began is counted off when it
/// ends, whatever ends it: where the count could grow, it is back at what
/// it was.
pub proof fn lemma_join_then_leave(
    table: Seq<EntryModel>,
    key: Seq<char>,
    config: Config,
    client: SocketAddr,
    mode: RoutingMode,
    event: EventModel,
)
    requires
        lookup(table, key) matches Some(entry) && entry.player_count < usize::MAX,
    ensures
        transition(
            PhaseModel::Splicing(Some(key)),
            client,
            mode,
            config,
            counted(table, key, CounterOp::Join),
            event,
        ) == closed(table, None),
{
    lemma_route_index(table, key);
    let i = route_index(table, key);
    let joined = counted(table, key, CounterOp::Join);
    lemma_with_count_keeps_routes(table, i, incremented(table[i].player_count), key);
    assert(counted(joined, key, CounterOp::Leave) =~= table);
}

/// The bytes for a client whose host no route leads to.
pub fn unknown_host_reply(config: &Config, state: NextState) -> (bytes: Vec<u8>)
    ensures
        bytes@ == reply_bytes(unknown_host_document(*config, state)),
{
    let document = match state {
        NextState::Login => config.get_unknown_host_kick_msg(),
        NextState::Status => config.get_unknown_host_motd(),
    };
    reply_packet(document.as_str())
}

/// The bytes for a client whose backend is down.
pub fn offline_reply(config: &Config, state: NextState, waking: bool) -> (bytes: Vec<u8>)
    ensures
        bytes@ == reply_bytes(offline_document(*config, state, waking)),
{
    let document = match state {
        NextState::Login => if waking {
            config.get_offline_server_starting_msg()
        } else {
            config.get_offline_server_kick_msg()
        },
        NextState::Status => config.get_offline_server_motd_not_starting(""),
    };
    reply_packet(document.as_str())
}

/// One client connection.
#[derive(Debug)]
pub struct Connection {
    client: SocketAddr,
    mode: RoutingMode,
    phase: Phase,
}

impl Connection {
    /// The address of the client.
    pub closed spec fn client(&self) -> SocketAddr {
        self.client
    }

    /// How the listener of this connection routes.
    pub closed spec fn mode(&self) -> RoutingMode {
        self.mode
    }

    /// How far the connection has come.
    pub closed spec fn phase(&self) -> PhaseModel {
        self.phase@
    }

    /// A connection that was just accepted from `client` by a listener
    /// that routes by `mode`. Its first action is to read a byte.
    pub fn new(client: SocketAddr, mode: RoutingMode) -> (connection: Connection)
        ensures
            connection.client() == client,
            connection.mode() == mode,
            connection.phase() == PhaseModel::ReadingSize(Seq::empty()),
    {
        Connection { client, mode, phase: Phase::ReadingSize(Vec::new()) }
    }

    /// Whether the connection is over.
    pub fn is_closed(&self) -> (yes: bool)
        ensures
            yes == (self.phase() == PhaseModel::Closed),
    {
        match &self.phase {
            Phase::Closed => true,
            _ => false,
        }
    }

    /// Whether bytes are being relayed.
    pub fn is_splicing(&self) -> (yes: bool)
        ensures
            yes == (self.phase() is Splicing),
    {
        match &self.phase {
            Phase::Splicing(_) => true,
            _ => false,
        }
    }

    /// Takes `event` in and says what to do next.
    pub fn step(&mut self, config: &Config, servers: &mut Servers, event: Event) -> (action: Action)
        ensures
            final(self).client() == old(self).client(),
            final(self).mode() == old(self).mode(),
            table_valid(final(servers)@),
            ({
                let outcome = transition(
                    old(self).phase(),
                    old(self).client(),
                    old(self).mode(),
                    *config,
                    old(servers)@,
                    event@,
                );
                &&& final(self).phase() == outcome.phase
                &&& final(servers)@ == outcome.table
                &&& action@ == outcome.action
            }),
    {
        let mut phase = Phase::Closed;
        std::mem::swap(&mut self.phase, &mut phase);
        let (next, action) = match phase {
            Phase::ReadingSize(prefix) => match event {
                Event::Byte(byte) => size_byte(prefix, byte),
                _ => (Phase::Closed, Action::Close(Some(ProxyError::Io))),
            },
            Phase::ReadingBody(size) => match event {
                Event::Body(body) => body_arrived(size, body, self.mode, config, servers),
                _ => (Phase::Closed, Action::Close(Some(ProxyError::Io))),
            },
            Phase::Dialing(handshake, route) => match event {
                Event::Connected(peer) => connected(handshake, route, self.client, peer, servers),
                Event::DialFailed => dial_failed(handshake, route, config),
                _ => (Phase::Closed, Action::Close(Some(ProxyError::Io))),
            },
            Phase::Splicing(key) => {
                match key {
                    Some(k) => {
                        servers.count(k.as_str(), CounterOp::Leave);
                    },
                    None => {},
                }
                (Phase::Closed, Action::Close(None))
            },
            Phase::Closed => (Phase::Closed, Action::Close(None)),
        };
        proof {
            use_type_invariant(&*servers);
        }
        self.phase = next;
        action
    }
}

fn size_byte(prefix: Vec<u8>, byte: u8) -> (res: (Phase, Action))
    ensures
        ({
            let outcome = on_size_byte(prefix@, byte, Seq::empty());
            res.0@ == outcome.phase && res.1@ == outcome.action
        }),
{
    let mut bytes = prefix;
    bytes.push(byte);
    match read_var_int(bytes.as_slice()) {
        Ok((size, _)) => if size > 0 {
            (Phase::ReadingBody(size as usize), Action::ReadBody(size as usize))
        } else {
            (Phase::Closed, Action::Close(Some(ProxyError::Malformed)))
        },
        Err(_) => if bytes.len() >= 5 {
            (Phase::Closed, Action::Close(Some(ProxyError::Malformed)))
        } else {
            (Phase::ReadingSize(bytes), Action::ReadByte)
        },
    }
}

fn body_arrived(
    size: usize,
    body: Vec<u8>,
    mode: RoutingMode,
    config: &Config,
    servers: &Servers,
) -> (res: (Phase, Action))
    ensures
        ({
            let outcome = on_body(size as nat, body@, mode, *config, servers@);
            res.0@ == outcome.phase && res.1@ == outcome.action
        }),
{
    if body.len() != size {
        return (Phase::Closed, Action::Close(Some(ProxyError::Io)));
    }
    let handshake = match HandshakeRequest::from_body(body) {
        Ok(handshake) => handshake,
        Err(_) => {
            return (Phase::Closed, Action::Close(Some(ProxyError::Malformed)));
        },
    };
    match mode {
        RoutingMode::PortSpan(port) => {
            let address = config.backend_for_port(port);
            (Phase::Dialing(handshake, None), Action::Dial(address))
        },
        RoutingMode::Hostname => {
            let key = normalize(handshake.get_server_address());
            match servers.get_by_hostname(key.as_str()) {
                Some(entry) => {
                    let route = Route { key, server_id: entry.id };
                    (Phase::Dialing(handshake, Some(route)), Action::Dial(entry.backend_server))
                },
                None => {
                    let bytes = unknown_host_reply(config, *handshake.get_next_state());
                    (Phase::Closed, Action::Reply(ProxyError::UnknownHost, bytes))
                },
            }
        },
    }
}

fn connected(
    handshake: HandshakeRequest,
    route: Option<Route>,
    client: SocketAddr,
    peer: SocketAddr,
    servers: &mut Servers,
) -> (res: (Phase, Action))
    ensures
        ({
            let outcome = on_connected(handshake@, route_model(route), client, peer, old(servers)@);
            res.0@ == outcome.phase && res.1@ == outcome.action && final(servers)@ == outcome.table
        }),
{
    let mut bytes = match ProxyProtocol::new(client, peer).generate_header() {
        Ok(header) => header,
        Err(e) => {
            return (Phase::Closed, Action::Close(Some(e)));
        },
    };
    let mut packet = handshake.reframe();
    bytes.append(&mut packet);
    let key = match route {
        Some(r) => {
            servers.count(r.key.as_str(), CounterOp::Join);
            Some(r.key)
        },
        None => None,
    };
    (Phase::Splicing(key), Action::Splice(bytes))
}

fn dial_failed(handshake: HandshakeRequest, route: Option<Route>, config: &Config) -> (res: (
    Phase,
    Action,
))
    ensures
        ({
            let outcome = on_dial_failed(handshake@, route_model(route), *config, Seq::empty());
            res.0@ == outcome.phase && res.1@ == outcome.action
        }),
{
    let state = *handshake.get_next_state();
    match route {
        Some(r) => {
            let waking = config.auto_start && state == NextState::Login;
            let bytes = offline_reply(config, state, waking);
            if waking {
                (Phase::Closed, Action::WakeAndReply(r.server_id, bytes))
            } else {
                (Phase::Closed, Action::Reply(ProxyError::BackendUnreachable, bytes))
            }
        },
        None => {
            let bytes = offline_reply(config, state, false);
            (Phase::Closed, Action::Reply(ProxyError::BackendUnreachable, bytes))
        },
    }
}

} // verus!
