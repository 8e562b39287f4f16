//! The messages that peers exchange, and the three kinds of connection that
//! carry them.
//!
//! Nothing here touches a socket. A connection is the protocol's view of one:
//! which way it runs, and which messages may be written to it or read from
//! it. Its methods hand out the messages to send and judge the messages
//! received; moving the bytes is left to the caller.

use vstd::prelude::*;
use vstd::std_specs::cmp::PartialEqSpecImpl;

use crate::clock::VectorClock;
use crate::entropy::random_bytes;
use crate::host::{first_difference, lemma_name_order_at, name_order, Host, Precedence};

verus! {

/// An Endpoint is an IPv4 address and a TCP port. The address is held as the
/// number that its four octets spell, most significant octet first.
/// Endpoints are ordered by address, then by port.
#[derive(Debug, Ord, PartialOrd, PartialEq, Eq, Hash, Copy, Clone, Structural)]
pub struct Endpoint {
    pub ip: u32,
    pub port: u16,
}

/// A PeerID is just an Endpoint.
pub type PeerID = Endpoint;

/// The number that four octets spell, most significant octet first.
pub open spec fn address_of(octets: Seq<u8>) -> int {
    ((octets[0] as int * 256 + octets[1] as int) * 256 + octets[2] as int) * 256
        + octets[3] as int
}

impl Endpoint {
    /// The position of the endpoint in the order of endpoints: address, then
    /// port, read as one number.
    pub open spec fn rank(self) -> int {
        self.ip as int * 65536 + self.port as int
    }

    /// The endpoint with the address that `ip` spells and the given port.
    pub fn new(ip: &[u8; 4], port: u16) -> (e: Endpoint)
        ensures
            e.ip == address_of(ip@),
            e.port == port,
    {
        let a: u32 = ip[0] as u32;
        let b: u32 = ip[1] as u32;
        let c: u32 = ip[2] as u32;
        let d: u32 = ip[3] as u32;
        Endpoint { ip: ((a * 256 + b) * 256 + c) * 256 + d, port }
    }

    /// The four octets of the address, most significant first.
    pub fn octets(&self) -> (o: [u8; 4])
        ensures
            address_of(o@) == self.ip,
    {
        let a: u8 = (self.ip / 16777216) as u8;
        let b: u8 = ((self.ip / 65536) % 256) as u8;
        let c: u8 = ((self.ip / 256) % 256) as u8;
        let d: u8 = (self.ip % 256) as u8;
        [a, b, c, d]
    }

    /// The port.
    pub fn port(&self) -> (p: u16)
        ensures
            p == self.port,
    {
        self.port
    }

    /// Endpoints are ordered by address first and by port second.
    pub proof fn lemma_ordered_by_address_then_port(a: Endpoint, b: Endpoint)
        ensures
            name_order(a.name(), b.name()) == if a.ip < b.ip || (a.ip == b.ip && a.port < b.port) {
                Precedence::Before
            } else if a == b {
                Precedence::Same
            } else {
                Precedence::After
            },
    {
        let x = a.name();
        let y = b.name();
        assert(x[0] == a.rank());
        assert(y[0] == b.rank());
        if a.rank() == b.rank() {
            assert(a.ip == b.ip && a.port == b.port);
            assert(first_difference(x, y, 1));
            lemma_name_order_at(x, y, 1);
        } else {
            assert(first_difference(x, y, 0));
            lemma_name_order_at(x, y, 0);
        }
    }

    /// Endpoints of the same name are the same endpoint.
    pub proof fn lemma_name_determines(a: Endpoint, b: Endpoint)
        requires
            a.name() == b.name(),
        ensures
            a == b,
    {
        assert(a.name()[0] == b.name()[0]);
        assert(seq![a.rank()][0] == a.rank());
        assert(seq![b.rank()][0] == b.rank());
        assert(a.rank() == b.rank());
        assert(a.ip == b.ip && a.port == b.port);
    }
}

impl Host for Endpoint {
    /// An endpoint is named by its rank alone.
    open spec fn name(&self) -> Seq<int> {
        seq![self.rank()]
    }

    fn compare(&self, other: &Self) -> (p: Precedence) {
        let x: u64 = self.ip as u64 * 65536 + self.port as u64;
        let y: u64 = other.ip as u64 * 65536 + other.port as u64;
        proof {
            let a = self.name();
            let b = other.name();
            if x == y {
                assert(first_difference(a, b, 1));
                lemma_name_order_at(a, b, 1);
            } else {
                assert(first_difference(a, b, 0));
                lemma_name_order_at(a, b, 0);
            }
        }
        if x < y {
            Precedence::Before
        } else if x == y {
            Precedence::Same
        } else {
            Precedence::After
        }
    }

    fn duplicate(&self) -> (h: Self) {
        *self
    }
}

/// A CopyClock encapsulates a VectorClock and the PeerID of the peer who last
/// pressed copy.
#[derive(Debug)]
pub struct CopyClock {
    pub clock: VectorClock<PeerID>,
    pub last_copy_src: PeerID,
}

/// What a CopyClock says: the counters of its clock, and the last copier.
pub struct CopyClockView {
    pub clock: Map<Seq<int>, nat>,
    pub last_copy_src: Endpoint,
}

impl View for CopyClock {
    type V = CopyClockView;

    open spec fn view(&self) -> CopyClockView {
        CopyClockView { clock: self.clock@, last_copy_src: self.last_copy_src }
    }
}

impl CopyClock {
    pub fn new(clock: &VectorClock<PeerID>, last_copy_src: &PeerID) -> (c: CopyClock)
        ensures
            c@ == (CopyClockView { clock: clock@, last_copy_src: *last_copy_src }),
    {
        CopyClock { clock: clock.clone(), last_copy_src: *last_copy_src }
    }
}

impl Clone for CopyClock {
    fn clone(&self) -> (c: Self)
        ensures
            c@ == self@,
    {
        CopyClock { clock: self.clock.clone(), last_copy_src: self.last_copy_src }
    }
}

impl PartialEq for CopyClock {
    /// Two CopyClocks are equal when their clocks are and they name the same
    /// last copier.
    fn eq(&self, other: &Self) -> (r: bool) {
        self.clock == other.clock && self.last_copy_src == other.last_copy_src
    }
}

impl PartialEqSpecImpl for CopyClock {
    open spec fn obeys_eq_spec() -> bool {
        true
    }

    open spec fn eq_spec(&self, other: &Self) -> bool {
        self@ == other@
    }
}

/// A MessageID is a 16-byte ID for a message, assumed to be unique.
pub type MessageID = [u8; 16];

/// The message ID that sixteen bytes make.
fn message_id_of(bytes: &Vec<u8>) -> (id: MessageID)
    requires
        bytes@.len() == 16,
    ensures
        id@ == bytes@,
{
    let mut id = [0u8;16];
    let mut i: usize = 0;
    while i < 16
        invariant
            i <= 16,
            bytes@.len() == 16,
            forall|j: int| 0 <= j < i ==> id@[j] == bytes@[j],
        decreases 16 - i,
    {
        id[i] = bytes[i];
        i += 1;
    }
    proof {
        assert(id@ =~= bytes@);
    }
    id
}

/// Draws a fresh message ID at random.
pub fn generate_message_id() -> (id: MessageID) {
    let drawn = random_bytes(16);
    message_id_of(&drawn)
}

/// A MessageType encodes the type of a message and all fields specific to
/// that type.
#[derive(Debug)]
pub enum MessageType {
    /// A JoinRequest is propagated through the network without changing its
    /// source ID, so that peers along the way learn the ID of the new peer.
    /// It is the first message sent on a `JoinConnection`.
    JoinRequest,
    /// A JoinResponse is reverse-path routed to the joining peer. Its source
    /// ID is not modified during forwarding, so that the new peer learns the
    /// IDs of existing peers.
    JoinResponse { target: Endpoint },
    /// A Ping carries the current state of the sending peer. It is the first
    /// message sent on a `P2PConnection`.
    Ping { state: CopyClock },
    /// A Pong is the reply to a Ping, carrying the state of the replying peer.
    Pong { state: CopyClock },
    /// A CopyNotification is flooded through the network from the peer who
    /// pressed copy.
    CopyNotification { state: CopyClock },
    /// A CopyRequest is sent from a peer who pressed paste to the peer who
    /// last pressed copy. It is the first message sent on a `CopyConnection`.
    CopyRequest { content_type: String },
    /// A TextResponse answers a CopyRequest with the text of the clipboard.
    TextResponse { text: String },
    /// An ErrorResponse answers a CopyRequest that the peer cannot serve.
    ErrorResponse { state: CopyClock, error: String },
}

/// What a MessageType says.
pub enum MessageTypeView {
    JoinRequest,
    JoinResponse { target: Endpoint },
    Ping { state: CopyClockView },
    Pong { state: CopyClockView },
    CopyNotification { state: CopyClockView },
    CopyRequest { content_type: Seq<char> },
    TextResponse { text: Seq<char> },
    ErrorResponse { state: CopyClockView, error: Seq<char> },
}

impl View for MessageType {
    type V = MessageTypeView;

    open spec fn view(&self) -> MessageTypeView {
        match *self {
            MessageType::JoinRequest => MessageTypeView::JoinRequest,
            MessageType::JoinResponse { target } => MessageTypeView::JoinResponse { target },
            MessageType::Ping { state } => MessageTypeView::Ping { state: state@ },
            MessageType::Pong { state } => MessageTypeView::Pong { state: state@ },
            MessageType::CopyNotification { state } => MessageTypeView::CopyNotification {
                state: state@,
            },
            MessageType::CopyRequest { content_type } => MessageTypeView::CopyRequest {
                content_type: content_type@,
            },
            MessageType::TextResponse { text } => MessageTypeView::TextResponse { text: text@ },
            MessageType::ErrorResponse { state, error } => MessageTypeView::ErrorResponse {
                state: state@,
                error: error@,
            },
        }
    }
}

impl Clone for MessageType {
    fn clone(&self) -> (c: Self)
        ensures
            c@ == self@,
    {
        match self {
            MessageType::JoinRequest => MessageType::JoinRequest,
            MessageType::JoinResponse { target } => MessageType::JoinResponse { target: *target },
            MessageType::Ping { state } => MessageType::Ping { state: state.clone() },
            MessageType::Pong { state } => MessageType::Pong { state: state.clone() },
            MessageType::CopyNotification { state } => MessageType::CopyNotification {
                state: state.clone(),
            },
            MessageType::CopyRequest { content_type } => MessageType::CopyRequest {
                content_type: content_type.clone(),
            },
            MessageType::TextResponse { text } => MessageType::TextResponse { text: text.clone() },
            MessageType::ErrorResponse { state, error } => MessageType::ErrorResponse {
                state: state.clone(),
                error: error.clone(),
            },
        }
    }
}

/// A Message is sent between two peers. Every message has an ID, a source, a
/// TTL and a hop count; the message type holds what else it carries.
#[derive(Debug)]
pub struct Message {
    pub message_id: MessageID,
    pub message_type: MessageType,
    pub src_id: PeerID,
    pub ttl: u32,
    pub hop_count: u32,
}

/// What a Message says.
pub struct MessageView {
    pub message_id: Seq<u8>,
    pub message_type: MessageTypeView,
    pub src_id: Endpoint,
    pub ttl: u32,
    pub hop_count: u32,
}

impl View for Message {
    type V = MessageView;

    open spec fn view(&self) -> MessageView {
        MessageView {
            message_id: self.message_id@,
            message_type: self.message_type@,
            src_id: self.src_id,
            ttl: self.ttl,
            hop_count: self.hop_count,
        }
    }
}

impl Clone for Message {
    fn clone(&self) -> (c: Self)
        ensures
            c@ == self@,
    {
        Message {
            message_id: self.message_id,
            message_type: self.message_type.clone(),
            src_id: self.src_id,
            ttl: self.ttl,
            hop_count: self.hop_count,
        }
    }
}

impl Message {
    /// The message with the given ID, type, source, TTL and hop count.
    pub fn new(
        message_id: MessageID,
        message_type: MessageType,
        src_id: PeerID,
        ttl: u32,
        hop_count: u32,
    ) -> (m: Message)
        ensures
            m@ == (MessageView {
                message_id: message_id@,
                message_type: message_type@,
                src_id,
                ttl,
                hop_count,
            }),
    {
        Message { message_id, message_type, src_id, ttl, hop_count }
    }
}

/// The TTL of a message that is not flooded.
pub const SINGLE_HOP_TTL: u32 = 1;

/// The TTL with which a CopyNotification starts out.
pub const COPY_NOTIFICATION_TTL: u32 = 8;

/// The Direction determines the direction of a JoinConnection or
/// CopyConnection. P2PConnections are bidirectional by nature.
#[derive(Debug, PartialOrd, PartialEq, Eq, Clone, Copy, Structural)]
pub enum Direction {
    Incoming,
    Outgoing,
}

/// Why a connection refuses a message.
#[derive(Debug, PartialEq, Eq, Clone, Copy, Structural)]
pub enum ConnectionError {
    /// A response can only be written to an incoming connection.
    NotIncoming,
    /// A message can only be read from an outgoing connection.
    NotOutgoing,
    /// The message is of a type that this kind of connection does not carry.
    UnexpectedMessage,
}

/// A JoinConnection is the type of connection established when a peer joins
/// the network or searches for more peers.
#[derive(Debug)]
pub struct JoinConnection {
    dir: Direction,
}

impl JoinConnection {
    /// The direction of the connection.
    pub closed spec fn direction(&self) -> Direction {
        self.dir
    }

    /// The direction of the connection.
    pub fn dir(&self) -> (d: Direction)
        ensures
            d == self.direction(),
    {
        self.dir
    }

    /// Opens a new connection, presenting `local` as the joining peer. The
    /// message returned is the JoinRequest to send first.
    pub fn open(local: &PeerID, ttl: u32) -> (r: (JoinConnection, Message))
        ensures
            r.0.direction() == Direction::Outgoing,
            r.1@ == (MessageView {
                message_id: r.1.message_id@,
                message_type: MessageTypeView::JoinRequest,
                src_id: *local,
                ttl,
                hop_count: 0,
            }),
    {
        let msg = Message::new(generate_message_id(), MessageType::JoinRequest, *local, ttl, 0);
        (JoinConnection { dir: Direction::Outgoing }, msg)
    }

    /// Opens a new connection that forwards `incoming` as part of the
    /// flooding procedure: the same request one hop further on, with its ID
    /// and its source unchanged.
    pub fn forward(incoming: &Message) -> (r: (JoinConnection, Message))
        requires
            incoming.ttl >= 1,
            incoming.hop_count < u32::MAX,
        ensures
            r.0.direction() == Direction::Outgoing,
            r.1@ == (MessageView {
                message_id: incoming.message_id@,
                message_type: MessageTypeView::JoinRequest,
                src_id: incoming.src_id,
                ttl: (incoming.ttl - 1) as u32,
                hop_count: (incoming.hop_count + 1) as u32,
            }),
    {
        let msg = Message::new(
            incoming.message_id,
            MessageType::JoinRequest,
            incoming.src_id,
            incoming.ttl - 1,
            incoming.hop_count + 1,
        );
        (JoinConnection { dir: Direction::Outgoing }, msg)
    }

    /// Responds to `incoming` with `own_id` as the ID. The response is then
    /// reverse-path routed to the peer that sent the request.
    pub fn respond(&self, own_id: &PeerID, incoming: &Message) -> (r: Result<
        Message,
        ConnectionError,
    >)
        ensures
            self.direction() != Direction::Incoming ==> r == Err::<Message, ConnectionError>(
                ConnectionError::NotIncoming,
            ),
            self.direction() == Direction::Incoming ==> r is Ok && r->Ok_0@ == (MessageView {
                message_id: incoming.message_id@,
                message_type: MessageTypeView::JoinResponse { target: incoming.src_id },
                src_id: *own_id,
                ttl: incoming.ttl,
                hop_count: incoming.hop_count,
            }),
    {
        if self.dir != Direction::Incoming {
            return Err(ConnectionError::NotIncoming);
        }
        Ok(
            Message::new(
                incoming.message_id,
                MessageType::JoinResponse { target: incoming.src_id },
                *own_id,
                incoming.ttl,
                incoming.hop_count,
            ),
        )
    }

    /// Forwards a response via reverse-path routing to `target`, leaving the
    /// ID and the source of the responder as they are.
    pub fn forward_response(&self, incoming: &Message, target: &Endpoint) -> (r: Result<
        Message,
        ConnectionError,
    >)
        ensures
            self.direction() != Direction::Incoming ==> r == Err::<Message, ConnectionError>(
                ConnectionError::NotIncoming,
            ),
            self.direction() == Direction::Incoming ==> r is Ok && r->Ok_0@ == (MessageView {
                message_id: incoming.message_id@,
                message_type: MessageTypeView::JoinResponse { target: *target },
                src_id: incoming.src_id,
                ttl: incoming.ttl,
                hop_count: incoming.hop_count,
            }),
    {
        if self.dir != Direction::Incoming {
            return Err(ConnectionError::NotIncoming);
        }
        Ok(
            Message::new(
                incoming.message_id,
                MessageType::JoinResponse { target: *target },
                incoming.src_id,
                incoming.ttl,
                incoming.hop_count,
            ),
        )
    }

    /// Takes a message that was read off the connection, iff this is an
    /// outgoing connection.
    pub fn read_message(&self, received: Message) -> (r: Result<Message, ConnectionError>)
        ensures
            self.direction() != Direction::Outgoing ==> r == Err::<Message, ConnectionError>(
                ConnectionError::NotOutgoing,
            ),
            self.direction() == Direction::Outgoing ==> r == Ok::<Message, ConnectionError>(
                received,
            ),
    {
        if self.dir != Direction::Outgoing {
            return Err(ConnectionError::NotOutgoing);
        }
        Ok(received)
    }
}

/// A CopyConnection is the type of connection established between a peer who
/// wants the clipboard and a peer who is believed to have the clipboard.
#[derive(Debug)]
pub struct CopyConnection {
    dir: Direction,
}

impl CopyConnection {
    /// The direction of the connection.
    pub closed spec fn direction(&self) -> Direction {
        self.dir
    }

    /// The direction of the connection.
    pub fn dir(&self) -> (d: Direction)
        ensures
            d == self.direction(),
    {
        self.dir
    }

    /// Opens a new CopyConnection. The message returned is the CopyRequest
    /// to send first.
    pub fn open(local: &PeerID, content_type: &String) -> (r: (CopyConnection, Message))
        ensures
            r.0.direction() == Direction::Outgoing,
            r.1@ == (MessageView {
                message_id: r.1.message_id@,
                message_type: MessageTypeView::CopyRequest { content_type: content_type@ },
                src_id: *local,
                ttl: 1,
                hop_count: 0,
            }),
    {
        let msg = Message::new(
            generate_message_id(),
            MessageType::CopyRequest { content_type: content_type.clone() },
            *local,
            SINGLE_HOP_TTL,
            0,
        );
        (CopyConnection { dir: Direction::Outgoing }, msg)
    }

    /// Responds to the request with the contents of the clipboard.
    pub fn respond(&self, text: &String, local: &PeerID) -> (r: Result<Message, ConnectionError>)
        ensures
            self.direction() != Direction::Incoming ==> r == Err::<Message, ConnectionError>(
                ConnectionError::NotIncoming,
            ),
            self.direction() == Direction::Incoming ==> r is Ok && r->Ok_0@ == (MessageView {
                message_id: r->Ok_0.message_id@,
                message_type: MessageTypeView::TextResponse { text: text@ },
                src_id: *local,
                ttl: 1,
                hop_count: 0,
            }),
    {
        if self.dir != Direction::Incoming {
            return Err(ConnectionError::NotIncoming);
        }
        Ok(
            Message::new(
                generate_message_id(),
                MessageType::TextResponse { text: text.clone() },
                *local,
                SINGLE_HOP_TTL,
                0,
            ),
        )
    }

    /// Responds to the request with an error and the local state.
    pub fn respond_error(&self, error: &String, state: &CopyClock, local: &Endpoint) -> (r:
        Result<Message, ConnectionError>)
        ensures
            self.direction() != Direction::Incoming ==> r == Err::<Message, ConnectionError>(
                ConnectionError::NotIncoming,
            ),
            self.direction() == Direction::Incoming ==> r is Ok && r->Ok_0@ == (MessageView {
                message_id: r->Ok_0.message_id@,
                message_type: MessageTypeView::ErrorResponse { state: state@, error: error@ },
                src_id: *local,
                ttl: 1,
                hop_count: 0,
            }),
    {
        if self.dir != Direction::Incoming {
            return Err(ConnectionError::NotIncoming);
        }
        Ok(
            Message::new(
                generate_message_id(),
                MessageType::ErrorResponse { error: error.clone(), state: state.clone() },
                *local,
                SINGLE_HOP_TTL,
                0,
            ),
        )
    }

    /// Takes a message (the response) that was read off the connection, iff
    /// this is an outgoing connection.
    pub fn read_message(&self, received: Message) -> (r: Result<Message, ConnectionError>)
        ensures
            self.direction() != Direction::Outgoing ==> r == Err::<Message, ConnectionError>(
                ConnectionError::NotOutgoing,
            ),
            self.direction() == Direction::Outgoing ==> r == Ok::<Message, ConnectionError>(
                received,
            ),
    {
        if self.dir != Direction::Outgoing {
            return Err(ConnectionError::NotOutgoing);
        }
        Ok(received)
    }
}

/// A message of this type may travel on a P2PConnection.
pub open spec fn carried_peer_to_peer(t: MessageTypeView) -> bool {
    t is Ping || t is Pong || t is CopyNotification
}

/// A P2PConnection is the type of connection upheld between peers to
/// exchange copy notifications and soft state updates.
#[derive(Debug)]
pub struct P2PConnection {
    dir: Direction,
}

impl P2PConnection {
    /// The direction in which the connection was opened.
    pub closed spec fn direction(&self) -> Direction {
        self.dir
    }

    /// The direction in which the connection was opened.
    pub fn dir(&self) -> (d: Direction)
        ensures
            d == self.direction(),
    {
        self.dir
    }

    /// Opens a new connection. The message returned is the Ping with state
    /// `state` to send first.
    pub fn open(local: &PeerID, state: &CopyClock) -> (r: (P2PConnection, Message))
        ensures
            r.0.direction() == Direction::Outgoing,
            r.1@ == (MessageView {
                message_id: r.1.message_id@,
                message_type: MessageTypeView::Ping { state: state@ },
                src_id: *local,
                ttl: 1,
                hop_count: 0,
            }),
    {
        let msg = Message::new(
            generate_message_id(),
            MessageType::Ping { state: state.clone() },
            *local,
            SINGLE_HOP_TTL,
            0,
        );
        (P2PConnection { dir: Direction::Outgoing }, msg)
    }

    /// A second handle on the connection, for one thread to read off it
    /// while another writes.
    pub fn dup(&self) -> (c: P2PConnection)
        ensures
            c.direction() == self.direction(),
    {
        P2PConnection { dir: self.dir }
    }

    /// The Ping with state `state` to send.
    pub fn ping(&self, state: &CopyClock, local: &Endpoint) -> (m: Message)
        ensures
            m@ == (MessageView {
                message_id: m.message_id@,
                message_type: MessageTypeView::Ping { state: state@ },
                src_id: *local,
                ttl: 1,
                hop_count: 0,
            }),
    {
        Message::new(
            generate_message_id(),
            MessageType::Ping { state: state.clone() },
            *local,
            SINGLE_HOP_TTL,
            0,
        )
    }

    /// The Pong with state `state` to send.
    pub fn pong(&self, state: &CopyClock, local: &Endpoint) -> (m: Message)
        ensures
            m@ == (MessageView {
                message_id: m.message_id@,
                message_type: MessageTypeView::Pong { state: state@ },
                src_id: *local,
                ttl: 1,
                hop_count: 0,
            }),
    {
        Message::new(
            generate_message_id(),
            MessageType::Pong { state: state.clone() },
            *local,
            SINGLE_HOP_TTL,
            0,
        )
    }

    /// The CopyNotification with state `state` and TTL=8 to send.
    pub fn notify_copy(&self, state: &CopyClock, local: &Endpoint) -> (m: Message)
        ensures
            m@ == (MessageView {
                message_id: m.message_id@,
                message_type: MessageTypeView::CopyNotification { state: state@ },
                src_id: *local,
                ttl: 8,
                hop_count: 0,
            }),
    {
        Message::new(
            generate_message_id(),
            MessageType::CopyNotification { state: state.clone() },
            *local,
            COPY_NOTIFICATION_TTL,
            0,
        )
    }

    /// The CopyNotification to send when forwarding one for flooding.
    pub fn forward_notify_copy(
        &self,
        state: &CopyClock,
        local: &Endpoint,
        ttl: u32,
        hop_count: u32,
    ) -> (m: Message)
        ensures
            m@ == (MessageView {
                message_id: m.message_id@,
                message_type: MessageTypeView::CopyNotification { state: state@ },
                src_id: *local,
                ttl,
                hop_count,
            }),
    {
        Message::new(
            generate_message_id(),
            MessageType::CopyNotification { state: state.clone() },
            *local,
            ttl,
            hop_count,
        )
    }

    /// Takes a message that was read off the connection. Only a Ping, a Pong
    /// or a CopyNotification may travel on a P2PConnection.
    pub fn read_message(&self, received: Message) -> (r: Result<Message, ConnectionError>)
        ensures
            carried_peer_to_peer(received@.message_type) ==> r == Ok::<Message, ConnectionError>(
                received,
            ),
            !carried_peer_to_peer(received@.message_type) ==> r == Err::<
                Message,
                ConnectionError,
            >(ConnectionError::UnexpectedMessage),
    {
        match received.message_type {
            MessageType::Ping { .. } | MessageType::Pong { .. } | MessageType::CopyNotification {
                ..
            } => Ok(received),
            _ => Err(ConnectionError::UnexpectedMessage),
        }
    }
}

/// A Connection determines the type of connection established between two
/// peers.
#[derive(Debug)]
pub enum Connection {
    Join(JoinConnection),
    Copy(CopyConnection),
    P2P(P2PConnection),
}

/// An IncomingConnection encapsulates a Connection and the first message
/// received.
#[derive(Debug)]
pub struct IncomingConnection {
    pub conn: Connection,
    pub first_msg: Message,
}

/// Determines the type of an incoming connection by the first message read
/// off it: a JoinRequest opens a JoinConnection, a Ping a P2PConnection, a
/// CopyRequest a CopyConnection. No other message opens a connection.
pub fn accept(first_msg: Message) -> (r: Option<IncomingConnection>)
    ensures
        first_msg@.message_type is JoinRequest ==> (r matches Some(incoming) && (
        incoming.first_msg == first_msg && (incoming.conn matches Connection::Join(c)
            && c.direction() == Direction::Incoming))),
        first_msg@.message_type is Ping ==> (r matches Some(incoming) && (incoming.first_msg
            == first_msg && (incoming.conn matches Connection::P2P(c) && c.direction()
            == Direction::Incoming))),
        first_msg@.message_type is CopyRequest ==> (r matches Some(incoming) && (
        incoming.first_msg == first_msg && (incoming.conn matches Connection::Copy(c)
            && c.direction() == Direction::Incoming))),
        !(first_msg@.message_type is JoinRequest || first_msg@.message_type is Ping
            || first_msg@.message_type is CopyRequest) ==> r is None,
{
    match first_msg.message_type {
        MessageType::JoinRequest => Some(
            IncomingConnection {
                conn: Connection::Join(JoinConnection { dir: Direction::Incoming }),
                first_msg,
            },
        ),
        MessageType::Ping { .. } => Some(
            IncomingConnection {
                conn: Connection::P2P(P2PConnection { dir: Direction::Incoming }),
                first_msg,
            },
        ),
        MessageType::CopyRequest { .. } => Some(
            IncomingConnection {
                conn: Connection::Copy(CopyConnection { dir: Direction::Incoming }),
                first_msg,
            },
        ),
        _ => None,
    }
}

} // verus!
