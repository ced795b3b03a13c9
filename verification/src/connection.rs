//! One client connection, as a machine that is told what happened on the
//! sockets and answers what to do next. It reads the handshake, picks the
//! backend, has the handshake replayed to it and the two sockets spliced.

use crate::error::ProxyError;
use crate::handshake::{
    body_length, frame_length, parse_message, HandshakeMessage, HandshakeView, HANDSHAKE_PACKET_ID,
};
use crate::routing::{resolve, Backend, BackendView, Config, RouteView};
use crate::varint::{continues, decode};
use vstd::prelude::*;

verus! {

/// How a connection ended.
#[derive(Clone, Copy, Debug, PartialEq, Eq, Structural)]
pub enum Outcome {
    /// One direction of the splice reached its end.
    Completed,
    /// No route admits the hostname: the client is turned away, which is no
    /// fault.
    NoRouteFound,
    /// The connection was given up.
    Failed(ProxyError),
}

/// Where a connection stands.
#[derive(Clone, Copy, Debug, PartialEq, Eq, Structural)]
pub enum Phase {
    /// The length prefix is being read, byte by byte.
    ReadingPrefix,
    /// The body is being read.
    ReadingBody,
    /// A pre-dialed backend socket was asked of the pool.
    AwaitingPool,
    /// The backend is being dialed.
    Dialing,
    /// The handshake is being written to the backend.
    Replaying,
    /// Bytes are copied both ways.
    Splicing,
    /// Both sockets are released.
    Closed(Outcome),
}

/// What the one who owns the sockets is to do next.
#[derive(Clone, Copy, Debug, PartialEq, Eq, Structural)]
pub enum Action {
    /// Read one byte from the client.
    ReadByte,
    /// Read exactly so many bytes from the client.
    ReadBody(usize),
    /// Ask the pool for its idle socket to the connection's backend.
    RequestPooled,
    /// Dial the connection's backend, with no-delay set.
    Dial,
    /// Write the raw bytes of the connection's handshake to the backend.
    Replay,
    /// Copy bytes both ways and report the first direction that ends.
    Splice,
    /// Close both sockets.
    Close(Outcome),
}

/// What happened on the sockets.
#[derive(Debug)]
pub enum Event {
    /// The client sent this byte.
    Byte(u8),
    /// The client sent these bytes, as many as were asked for.
    Body(Vec<u8>),
    /// A read from the client failed.
    ReadFailed,
    /// The pool handed over a socket.
    PoolServed,
    /// The pool did not answer: its channel is closed, or it said no.
    PoolUnavailable,
    /// The dial succeeded.
    Connected,
    /// The dial failed.
    ConnectFailed,
    /// The handshake was written to the backend.
    Replayed,
    /// A write to the backend failed.
    WriteFailed,
    /// One direction of the splice ended; `true` where it ended at the end
    /// of its stream, `false` where it ended in an error.
    CopyFinished(bool),
}

/// A client connection.
#[derive(Debug)]
pub struct Connection {
    pub phase: Phase,
    /// Whether the backend socket is first asked of the pool.
    pub pooled: bool,
    /// The bytes of the length prefix read so far.
    pub prefix: Vec<u8>,
    /// The length of the body, once the prefix is read.
    pub body_len: usize,
    /// The handshake, once it is parsed.
    pub handshake: Option<HandshakeMessage>,
    /// The backend, once it is picked.
    pub backend: Option<Backend>,
}

/// What a `Connection` holds.
pub struct ConnectionView {
    pub phase: Phase,
    pub pooled: bool,
    pub prefix: Seq<u8>,
    pub body_len: usize,
    pub handshake: Option<HandshakeView>,
    pub backend: Option<BackendView>,
}

impl View for Connection {
    type V = ConnectionView;

    open spec fn view(&self) -> ConnectionView {
        ConnectionView {
            phase: self.phase,
            pooled: self.pooled,
            prefix: self.prefix@,
            body_len: self.body_len,
            handshake: match self.handshake {
                Some(message) => Some(message@),
                None => None,
            },
            backend: match self.backend {
                Some(backend) => Some(backend@),
                None => None,
            },
        }
    }
}

/// The state of a connection that was just accepted.
pub open spec fn initial(pooled: bool) -> ConnectionView {
    ConnectionView {
        phase: Phase::ReadingPrefix,
        pooled,
        prefix: Seq::empty(),
        body_len: 0,
        handshake: None,
        backend: None,
    }
}

/// The state `pre`, closed with `outcome`.
pub open spec fn closed(pre: ConnectionView, outcome: Outcome) -> (ConnectionView, Action) {
    (ConnectionView { phase: Phase::Closed(outcome), ..pre }, Action::Close(outcome))
}

/// The state `pre`, moved on to `phase`.
pub open spec fn moved(pre: ConnectionView, phase: Phase, action: Action) -> (
    ConnectionView,
    Action,
) {
    (ConnectionView { phase, ..pre }, action)
}

/// What a connection in state `pre` becomes on `event`, and what is to be
/// done then. An event that the phase does not wait for closes the
/// connection as an I/O error; a closed connection stays closed.
pub open spec fn next(pre: ConnectionView, event: Event, table: Seq<RouteView>) -> (
    ConnectionView,
    Action,
) {
    match pre.phase {
        Phase::Closed(outcome) => (pre, Action::Close(outcome)),
        Phase::ReadingPrefix => match event {
            Event::Byte(byte) => {
                let read = ConnectionView { prefix: pre.prefix.push(byte), ..pre };
                if continues(byte) {
                    (read, Action::ReadByte)
                } else {
                    match frame_length(read.prefix) {
                        Ok(length) => (
                            ConnectionView { phase: Phase::ReadingBody, body_len: length, ..read },
                            Action::ReadBody(length),
                        ),
                        Err(e) => closed(read, Outcome::Failed(e)),
                    }
                }
            },
            _ => closed(pre, Outcome::Failed(ProxyError::IoError)),
        },
        Phase::ReadingBody => match event {
            Event::Body(body) => if body@.len() != pre.body_len {
                closed(pre, Outcome::Failed(ProxyError::IoError))
            } else {
                match parse_message(pre.prefix, body@) {
                    Err(e) => closed(pre, Outcome::Failed(e)),
                    Ok(message) => {
                        let parsed = ConnectionView { handshake: Some(message), ..pre };
                        match resolve(table, message.hostname) {
                            None => closed(parsed, Outcome::NoRouteFound),
                            Some(backend) => {
                                let routed = ConnectionView { backend: Some(backend), ..parsed };
                                if pre.pooled {
                                    moved(routed, Phase::AwaitingPool, Action::RequestPooled)
                                } else {
                                    moved(routed, Phase::Dialing, Action::Dial)
                                }
                            },
                        }
                    },
                }
            },
            _ => closed(pre, Outcome::Failed(ProxyError::IoError)),
        },
        Phase::AwaitingPool => match event {
            Event::PoolServed => moved(pre, Phase::Replaying, Action::Replay),
            Event::PoolUnavailable => moved(pre, Phase::Dialing, Action::Dial),
            _ => closed(pre, Outcome::Failed(ProxyError::IoError)),
        },
        Phase::Dialing => match event {
            Event::Connected => moved(pre, Phase::Replaying, Action::Replay),
            Event::ConnectFailed => closed(pre, Outcome::Failed(ProxyError::BackendUnreachable)),
            _ => closed(pre, Outcome::Failed(ProxyError::IoError)),
        },
        Phase::Replaying => match event {
            Event::Replayed => moved(pre, Phase::Splicing, Action::Splice),
            _ => closed(pre, Outcome::Failed(ProxyError::IoError)),
        },
        Phase::Splicing => match event {
            Event::CopyFinished(true) => closed(pre, Outcome::Completed),
            _ => closed(pre, Outcome::Failed(ProxyError::IoError)),
        },
    }
}

/// What holds of every state that a connection goes through: the length of
/// the body is the one that the prefix announces, and from the moment a
/// backend is contacted the handshake and the backend are known.
pub open spec fn well_formed(state: ConnectionView) -> bool {
    match state.phase {
        Phase::ReadingPrefix => state.handshake.is_none() && state.backend.is_none(),
        Phase::ReadingBody => state.handshake.is_none() && state.backend.is_none()
            && frame_length(state.prefix) == Ok::<usize, ProxyError>(state.body_len),
        Phase::AwaitingPool => state.pooled && state.handshake.is_some()
            && state.backend.is_some(),
        Phase::Dialing | Phase::Replaying | Phase::Splicing => state.handshake.is_some()
            && state.backend.is_some(),
        Phase::Closed(_) => true,
    }
}

/// Whether an action touches a backend.
pub open spec fn contacts_backend(action: Action) -> bool {
    action == Action::RequestPooled || action == Action::Dial || action == Action::Replay || action
        == Action::Splice
}

/// The place of a phase in the order in which a connection goes through
/// them.
pub open spec fn rank(phase: Phase) -> int {
    match phase {
        Phase::ReadingPrefix => 0,
        Phase::ReadingBody => 1,
        Phase::AwaitingPool => 2,
        Phase::Dialing => 3,
        Phase::Replaying => 4,
        Phase::Splicing => 5,
        Phase::Closed(_) => 6,
    }
}

impl Connection {
    /// A connection that was just accepted. The first thing to do on it is
    /// to read one byte.
    pub fn new(pooled: bool) -> (connection: Connection)
        ensures
            connection@ == initial(pooled),
            well_formed(connection@),
    {
        Connection {
            phase: Phase::ReadingPrefix,
            pooled,
            prefix: Vec::new(),
            body_len: 0,
            handshake: None,
            backend: None,
        }
    }

    fn close(&mut self, outcome: Outcome) -> (action: Action)
        ensures
            (final(self)@, action) == closed(old(self)@, outcome),
    {
        self.phase = Phase::Closed(outcome);
        Action::Close(outcome)
    }

    fn move_on(&mut self, phase: Phase, action: Action) -> (same: Action)
        ensures
            (final(self)@, same) == moved(old(self)@, phase, action),
    {
        self.phase = phase;
        action
    }

    /// Takes the connection one step on: records what `event` brought and
    /// says what to do next.
    pub fn step(&mut self, event: Event, config: &Config) -> (action: Action)
        ensures
            (final(self)@, action) == next(old(self)@, event, config@),
            well_formed(old(self)@) ==> well_formed(final(self)@),
    {
        proof {
            lemma_step_keeps_well_formed_if(self@, event, config@);
        }
        match self.phase {
            Phase::Closed(outcome) => Action::Close(outcome),
            Phase::ReadingPrefix => match event {
                Event::Byte(byte) => {
                    self.prefix.push(byte);
                    if byte >= 128 {
                        Action::ReadByte
                    } else {
                        match body_length(self.prefix.as_slice()) {
                            Ok(length) => {
                                self.body_len = length;
                                self.phase = Phase::ReadingBody;
                                Action::ReadBody(length)
                            },
                            Err(e) => self.close(Outcome::Failed(e)),
                        }
                    }
                },
                _ => self.close(Outcome::Failed(ProxyError::IoError)),
            },
            Phase::ReadingBody => match event {
                Event::Body(body) => {
                    if body.len() != self.body_len {
                        self.close(Outcome::Failed(ProxyError::IoError))
                    } else {
                        match HandshakeMessage::parse(self.prefix.as_slice(), body.as_slice()) {
                            Err(e) => self.close(Outcome::Failed(e)),
                            Ok(message) => {
                                let found = config.lookup(&message.hostname);
                                self.handshake = Some(message);
                                match found {
                                    None => self.close(Outcome::NoRouteFound),
                                    Some(backend) => {
                                        self.backend = Some(backend);
                                        if self.pooled {
                                            self.move_on(Phase::AwaitingPool, Action::RequestPooled)
                                        } else {
                                            self.move_on(Phase::Dialing, Action::Dial)
                                        }
                                    },
                                }
                            },
                        }
                    }
                },
                _ => self.close(Outcome::Failed(ProxyError::IoError)),
            },
            Phase::AwaitingPool => match event {
                Event::PoolServed => self.move_on(Phase::Replaying, Action::Replay),
                Event::PoolUnavailable => self.move_on(Phase::Dialing, Action::Dial),
                _ => self.close(Outcome::Failed(ProxyError::IoError)),
            },
            Phase::Dialing => match event {
                Event::Connected => self.move_on(Phase::Replaying, Action::Replay),
                Event::ConnectFailed => self.close(
                    Outcome::Failed(ProxyError::BackendUnreachable),
                ),
                _ => self.close(Outcome::Failed(ProxyError::IoError)),
            },
            Phase::Replaying => match event {
                Event::Replayed => self.move_on(Phase::Splicing, Action::Splice),
                _ => self.close(Outcome::Failed(ProxyError::IoError)),
            },
            Phase::Splicing => match event {
                Event::CopyFinished(true) => self.close(Outcome::Completed),
                _ => self.close(Outcome::Failed(ProxyError::IoError)),
            },
        }
    }
}

/// Every step keeps a well-formed state well-formed.
pub proof fn lemma_step_keeps_well_formed(pre: ConnectionView, event: Event, table: Seq<RouteView>)
    requires
        well_formed(pre),
    ensures
        well_formed(next(pre, event, table).0),
{
}

proof fn lemma_step_keeps_well_formed_if(pre: ConnectionView, event: Event, table: Seq<RouteView>)
    ensures
        well_formed(pre) ==> well_formed(next(pre, event, table).0),
{
    if well_formed(pre) {
        lemma_step_keeps_well_formed(pre, event, table);
    }
}

/// A connection goes through its phases in one order: reading the prefix,
/// reading the body, asking the pool, dialing, replaying, splicing, closed.
/// No step goes back, and only a closed connection stays where it is, but
/// for the prefix, which is read byte by byte.
pub proof fn lemma_phases_advance(pre: ConnectionView, event: Event, table: Seq<RouteView>)
    ensures
        rank(pre.phase) <= rank(next(pre, event, table).0.phase),
        rank(pre.phase) == rank(next(pre, event, table).0.phase) ==> pre.phase
            == Phase::ReadingPrefix || pre.phase is Closed,
{
}

/// A backend is contacted for the first time only when the body has been
/// read, parsed as a handshake and routed: the step that asks for a pooled
/// socket or dials is the one that parsed the handshake and found its
/// hostname in the table, and it records that backend.
pub proof fn lemma_first_contact_follows_routing(
    pre: ConnectionView,
    event: Event,
    table: Seq<RouteView>,
)
    requires
        rank(pre.phase) <= rank(Phase::ReadingBody),
        contacts_backend(next(pre, event, table).1),
    ensures
        pre.phase == Phase::ReadingBody,
        event matches Event::Body(body) && parse_message(pre.prefix, body@) matches Ok(message)
            && resolve(table, message.hostname) matches Some(backend) && next(
            pre,
            event,
            table,
        ).0.backend == Some(backend) && next(pre, event, table).0.handshake == Some(message),
{
}

/// A body that is no handshake closes the connection as such, and nothing
/// is asked of any backend.
pub proof fn lemma_wrong_packet_type_contacts_no_backend(
    pre: ConnectionView,
    body: Vec<u8>,
    table: Seq<RouteView>,
)
    requires
        pre.phase == Phase::ReadingBody,
        body@.len() == pre.body_len,
        decode(body@) matches Ok((packet_id, _)) && packet_id != HANDSHAKE_PACKET_ID,
    ensures
        parse_message(pre.prefix, body@) == Err::<HandshakeView, ProxyError>(
            ProxyError::UnexpectedPacketType,
        ),
        next(pre, Event::Body(body), table).1 == Action::Close(
            Outcome::Failed(ProxyError::UnexpectedPacketType),
        ),
        !contacts_backend(next(pre, Event::Body(body), table).1),
        next(pre, Event::Body(body), table).0.backend == pre.backend,
{
}

/// A hostname that no route admits closes the connection as turned away,
/// and nothing is asked of any backend.
pub proof fn lemma_unrouted_hostname_contacts_no_backend(
    pre: ConnectionView,
    body: Vec<u8>,
    table: Seq<RouteView>,
)
    requires
        pre.phase == Phase::ReadingBody,
        body@.len() == pre.body_len,
        parse_message(pre.prefix, body@) matches Ok(message) && resolve(table, message.hostname)
            is None,
    ensures
        next(pre, Event::Body(body), table).1 == Action::Close(Outcome::NoRouteFound),
        !contacts_backend(next(pre, Event::Body(body), table).1),
        next(pre, Event::Body(body), table).0.backend == pre.backend,
{
}

/// Once a connection is closed nothing is asked of a backend any more.
pub proof fn lemma_closed_stays_closed(pre: ConnectionView, event: Event, table: Seq<RouteView>)
    requires
        pre.phase is Closed,
    ensures
        next(pre, event, table).0 == pre,
        next(pre, event, table).1 is Close,
{
}

/// The handshake that a connection records holds the bytes that the client
/// sent, the length prefix and then the body, none changed.
pub proof fn lemma_recorded_handshake_is_verbatim(
    pre: ConnectionView,
    body: Vec<u8>,
    table: Seq<RouteView>,
)
    requires
        well_formed(pre),
        pre.phase == Phase::ReadingBody,
    ensures
        next(pre, Event::Body(body), table).0.handshake matches Some(message)
            ==> message.raw_bytes == pre.prefix + body@,
{
}

/// The bytes to replay do not change once they are recorded: after the body
/// is read, no step touches the handshake, the prefix or the backend.
pub proof fn lemma_handshake_is_kept(pre: ConnectionView, event: Event, table: Seq<RouteView>)
    requires
        rank(pre.phase) > rank(Phase::ReadingBody),
    ensures
        next(pre, event, table).0.handshake == pre.handshake,
        next(pre, event, table).0.prefix == pre.prefix,
        next(pre, event, table).0.backend == pre.backend,
{
}

/// The prefix holds the bytes that the client sent, in their order: each
/// byte read is put at its end, and reading stops at the first byte without
/// the continuation bit.
pub proof fn lemma_prefix_grows_by_the_byte_read(
    pre: ConnectionView,
    byte: u8,
    table: Seq<RouteView>,
)
    requires
        pre.phase == Phase::ReadingPrefix,
    ensures
        next(pre, Event::Byte(byte), table).0.prefix == pre.prefix.push(byte),
        continues(byte) <==> next(pre, Event::Byte(byte), table).1 == Action::ReadByte,
        continues(byte) ==> next(pre, Event::Byte(byte), table).0.phase == Phase::ReadingPrefix,
{
}

/// The splice is over as soon as one direction ends, whichever it is and
/// however it ended: the connection closes at once, and nothing waits for
/// the other direction.
pub proof fn lemma_first_copy_to_finish_closes(
    pre: ConnectionView,
    ended_well: bool,
    table: Seq<RouteView>,
)
    requires
        pre.phase == Phase::Splicing,
    ensures
        next(pre, Event::CopyFinished(ended_well), table).0.phase is Closed,
        next(pre, Event::CopyFinished(ended_well), table).1 == Action::Close(
            if ended_well {
                Outcome::Completed
            } else {
                Outcome::Failed(ProxyError::IoError)
            },
        ),
{
}

/// The bytes that an event brought from the client.
pub open spec fn bytes_of(event: Event) -> Seq<u8> {
    match event {
        Event::Byte(byte) => seq![byte],
        Event::Body(body) => body@,
        _ => Seq::empty(),
    }
}

/// The bytes that `events` brought from the client, in their order.
pub open spec fn client_bytes(events: Seq<Event>) -> Seq<u8>
    decreases events.len(),
{
    if events.len() == 0 {
        Seq::empty()
    } else {
        client_bytes(events.drop_last()) + bytes_of(events.last())
    }
}

/// The state that a connection is in after `events`, one step for each.
pub open spec fn run(start: ConnectionView, events: Seq<Event>, table: Seq<RouteView>) -> ConnectionView
    decreases events.len(),
{
    if events.len() == 0 {
        start
    } else {
        next(run(start, events.drop_last(), table), events.last(), table).0
    }
}

/// The bytes of the client that a connection holds: the raw bytes of the
/// handshake once it is parsed, the length prefix before.
pub open spec fn held_bytes(state: ConnectionView) -> Seq<u8> {
    match state.handshake {
        Some(message) => message.raw_bytes,
        None => state.prefix,
    }
}

/// Whether `bytes` start with `front`.
pub open spec fn starts_with(bytes: Seq<u8>, front: Seq<u8>) -> bool {
    front.len() <= bytes.len() && bytes.take(front.len() as int) == front
}

/// Whatever happens on the sockets, a connection that starts as accepted
/// stays well-formed, and the bytes it holds are those that the client
/// sent, from the first on and in their order. While it is not closed it
/// holds all of them: so the bytes that are replayed to a backend are, byte
/// for byte, everything that was read from the client.
pub proof fn lemma_held_bytes_are_what_the_client_sent(
    pooled: bool,
    events: Seq<Event>,
    table: Seq<RouteView>,
)
    ensures
        well_formed(run(initial(pooled), events, table)),
        starts_with(client_bytes(events), held_bytes(run(initial(pooled), events, table))),
        !(run(initial(pooled), events, table).phase is Closed) ==> held_bytes(
            run(initial(pooled), events, table),
        ) == client_bytes(events),
    decreases events.len(),
{
    let last = run(initial(pooled), events, table);
    if events.len() == 0 {
        assert(client_bytes(events).take(0) =~= held_bytes(last));
    } else {
        let before = events.drop_last();
        let pre = run(initial(pooled), before, table);
        let event = events.last();
        lemma_held_bytes_are_what_the_client_sent(pooled, before, table);
        lemma_step_keeps_well_formed(pre, event, table);
        let seen = client_bytes(before);
        let all = client_bytes(events);
        let held = held_bytes(pre);
        let n = held.len() as int;
        assert(all == seen + bytes_of(event));
        assert(all.take(n) =~= seen.take(n));
        if pre.phase is Closed {
            assert(last == pre);
        } else {
            assert(held == seen);
            assert(all.take(all.len() as int) =~= all);
            if held_bytes(last) != held {
                assert(held_bytes(last) =~= all);
            }
        }
    }
}

/// Whether the backend of `state`, if it has one, is the one that `table`
/// gives for the hostname of its handshake.
pub open spec fn routed(state: ConnectionView, table: Seq<RouteView>) -> bool {
    state.backend matches Some(backend) ==> state.handshake matches Some(message)
        && message.packet_id == HANDSHAKE_PACKET_ID && resolve(table, message.hostname) == Some(
        backend,
    )
}

/// Whatever happens on the sockets, a connection that starts as accepted
/// has no backend but the one that the table gives for the hostname of a
/// handshake it parsed, and every step that asks something of a backend
/// leaves the connection with that backend: none is contacted for a message
/// that is no handshake, nor for a hostname that no route admits.
pub proof fn lemma_only_the_routed_backend_is_contacted(
    pooled: bool,
    events: Seq<Event>,
    table: Seq<RouteView>,
)
    ensures
        routed(run(initial(pooled), events, table), table),
        events.len() > 0 && contacts_backend(
            next(run(initial(pooled), events.drop_last(), table), events.last(), table).1,
        ) ==> run(initial(pooled), events, table).backend is Some,
    decreases events.len(),
{
    if events.len() > 0 {
        let before = events.drop_last();
        lemma_only_the_routed_backend_is_contacted(pooled, before, table);
        lemma_held_bytes_are_what_the_client_sent(pooled, before, table);
    }
}

} // verus!
