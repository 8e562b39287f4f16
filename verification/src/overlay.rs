//! One node of the overlay: what it knows, and what it decides.
//!
//! The node is a state machine. Each method takes what has just happened (a
//! local copy, a message read off a connection, a connection accepted) and
//! returns what is to be done about it: the messages to send and the peers to
//! send them to. Sockets, threads and timers belong to the caller.

use vstd::prelude::*;

use crate::clock::{
    count, incremented, lemma_same_counts_equal, relation, same_counts, valid, TemporalRelation,
    VectorClock,
};
use crate::clock_laws::lemma_relation_antisymmetric;
use crate::entropy::random_between;
use crate::host::Host;
use crate::network::{
    Connection, ConnectionError, CopyClock, CopyClockView, CopyConnection, Direction, Endpoint,
    IncomingConnection, JoinConnection, Message, MessageID, MessageType, MessageTypeView,
    MessageView, P2PConnection, PeerID,
};

verus! {

/// What is to be sent to a peer on its P2PConnection.
#[derive(Debug)]
pub enum P2PSend {
    Ping(CopyClock),
    CopyNotification(CopyClock),
    ForwardCopyNotification(CopyClock, u32, u32),
}

/// What a P2PSend says.
pub enum P2PSendView {
    Ping(CopyClockView),
    CopyNotification(CopyClockView),
    ForwardCopyNotification(CopyClockView, u32, u32),
}

impl View for P2PSend {
    type V = P2PSendView;

    open spec fn view(&self) -> P2PSendView {
        match *self {
            P2PSend::Ping(state) => P2PSendView::Ping(state@),
            P2PSend::CopyNotification(state) => P2PSendView::CopyNotification(state@),
            P2PSend::ForwardCopyNotification(state, ttl, hop_count) => {
                P2PSendView::ForwardCopyNotification(state@, ttl, hop_count)
            },
        }
    }
}

/// The state to keep when `incoming` arrives at a node that holds `current`:
/// the incoming state replaces the current one where the current clock caused
/// the incoming one, or lost the tie-break against it.
pub open spec fn updated(current: CopyClockView, incoming: CopyClockView) -> CopyClockView {
    match relation(current.clock, incoming.clock) {
        TemporalRelation::Equal => current,
        TemporalRelation::EffectOf => current,
        TemporalRelation::ConcurrentGreater => current,
        TemporalRelation::Caused => incoming,
        TemporalRelation::ConcurrentSmaller => incoming,
    }
}

/// Chooses between the state held and a state that has arrived.
fn newer_state(current: &CopyClock, incoming: CopyClock) -> (r: CopyClock)
    ensures
        r@ == updated(current@, incoming@),
{
    match current.clock.temporal_relation(&incoming.clock) {
        TemporalRelation::Equal => current.clone(),
        TemporalRelation::EffectOf => current.clone(),
        TemporalRelation::ConcurrentGreater => current.clone(),
        TemporalRelation::Caused => incoming,
        TemporalRelation::ConcurrentSmaller => incoming,
    }
}

/// Updates the given state with `new_state`, returning the updated state.
pub fn update_state(overlay_state: &mut CopyClock, new_state: CopyClock) -> (r: CopyClock)
    ensures
        final(overlay_state)@ == updated(old(overlay_state)@, new_state@),
        r@ == final(overlay_state)@,
{
    let next = newer_state(overlay_state, new_state);
    let r = next.clone();
    *overlay_state = next;
    r
}

/// The content type of plain text, the only one that a node serves.
pub open spec fn text_content_type() -> Seq<char> {
    "text"@
}

/// What a node answers to a CopyRequest when it is not the last copier.
pub open spec fn not_latest_error() -> Seq<char> {
    "I don't have the latest clipboard"@
}

/// Where the latest clipboard is to be had.
#[derive(Debug)]
pub enum ClipboardLookup {
    /// The node itself is the last copier: the local platform already holds
    /// the clipboard, and nothing is handed back to it.
    Local,
    /// The text fetched last is still the latest.
    Cached(String),
    /// The text is to be fetched from `holder`: `request` is the CopyRequest
    /// to send on a new CopyConnection `conn`.
    Remote { holder: PeerID, conn: CopyConnection, request: Message },
}

/// Where the latest clipboard is to be had, as a node's knowledge tells.
pub enum LookupView {
    Local,
    Cached(Seq<char>),
    Remote(Endpoint),
}

/// Where a node that knows `v` finds the latest clipboard.
pub open spec fn lookup(v: OverlayView) -> LookupView {
    if v.state.last_copy_src == v.own_id {
        LookupView::Local
    } else if v.cache_state == v.state {
        LookupView::Cached(v.cached_clipboard)
    } else {
        LookupView::Remote(v.state.last_copy_src)
    }
}

impl ClipboardLookup {
    /// The lookup without the connection and request of a remote fetch.
    pub open spec fn outcome(&self) -> LookupView {
        match *self {
            ClipboardLookup::Local => LookupView::Local,
            ClipboardLookup::Cached(text) => LookupView::Cached(text@),
            ClipboardLookup::Remote { holder, .. } => LookupView::Remote(holder),
        }
    }
}

/// Why the latest clipboard could not be fetched.
#[derive(Debug)]
pub enum ClipboardError {
    /// The remote peer replied with an error, whose text this is.
    Remote(String),
    /// The remote peer sent something other than a response to a CopyRequest.
    InvalidReply,
}

/// What a node knows after it has fetched `text` from the last copier.
pub open spec fn after_text(v: OverlayView, text: Seq<char>) -> OverlayView {
    OverlayView { cached_clipboard: text, cache_state: v.state, ..v }
}

/// The seconds between two rounds of pings.
pub const PING_INTERVAL_SECS: u64 = 10;

/// The least delay of the first round of pings, in milliseconds.
pub const PING_JITTER_LOW_MS: u32 = 1000;

/// The bound below which the delay of the first round of pings stays, in
/// milliseconds.
pub const PING_JITTER_HIGH_MS: u32 = 5000;

/// When a node pings its peers.
#[derive(Debug, Clone, Copy)]
pub struct AutopingSchedule {
    /// The milliseconds to wait before the first round.
    pub initial_delay_ms: u32,
    /// The seconds to wait between one round and the next.
    pub interval_secs: u64,
}

/// The test that keeps the peers that are not among `failed`.
pub open spec fn not_among(failed: Seq<Endpoint>) -> spec_fn(Endpoint) -> bool {
    |p: Endpoint| !failed.contains(p)
}

/// The TTL with which a node's own JoinRequest starts out.
pub const JOIN_TTL: u32 = 8;

/// Why a node could not join the network.
#[derive(Debug, PartialEq, Eq, Clone, Copy, Structural)]
pub enum JoinError {
    /// No peer has answered the node's join requests.
    NoPeers,
    /// No P2PConnection could be established to any of the peers that
    /// answered.
    NotConnected,
}

/// The endpoints of `s` stand in strictly ascending order.
pub open spec fn ascending_ranks(s: Seq<Endpoint>) -> bool {
    forall|i: int, j: int| 0 <= i < j < s.len() ==> (#[trigger] s[i]).rank() < (#[trigger] s[j]).rank()
}

/// What is sent when a connection method hands out `r`.
pub open spec fn sent(r: Result<Message, ConnectionError>) -> Result<MessageView, ConnectionError> {
    match r {
        Ok(m) => Ok(m@),
        Err(e) => Err(e),
    }
}

/// The answer of a node with the ID `own_id` to the JoinRequest `msg`, on a
/// connection of direction `dir`.
pub open spec fn join_response(dir: Direction, own_id: Endpoint, msg: MessageView) -> Result<
    MessageView,
    ConnectionError,
> {
    if dir == Direction::Incoming {
        Ok(
            MessageView {
                message_id: msg.message_id,
                message_type: MessageTypeView::JoinResponse { target: msg.src_id },
                src_id: own_id,
                ttl: msg.ttl,
                hop_count: msg.hop_count,
            },
        )
    } else {
        Err(ConnectionError::NotIncoming)
    }
}

/// The JoinRequest `msg` as it is passed on: one hop further, with its ID and
/// its source unchanged.
pub open spec fn forwarded_join(msg: MessageView) -> MessageView {
    MessageView {
        message_id: msg.message_id,
        message_type: MessageTypeView::JoinRequest,
        src_id: msg.src_id,
        ttl: (msg.ttl - 1) as u32,
        hop_count: (msg.hop_count + 1) as u32,
    }
}

/// What a node does about a JoinRequest that has come in.
#[derive(Debug)]
pub enum JoinHandling {
    /// The request has been here before: the connection is closed at once.
    Duplicate,
    /// The request has run out of hops: the node answers it and closes.
    Reply { response: Result<Message, ConnectionError> },
    /// The request is flooded on: each of `forwards` names a peer, with the
    /// JoinConnection to open to it and the request to send. What comes back
    /// on those is relayed on the incoming connection; then the node sends
    /// its own `response` and closes.
    Flood {
        forwards: Vec<(PeerID, JoinConnection, Message)>,
        response: Result<Message, ConnectionError>,
    },
}

/// `r` is what a node that knew `before` does about the JoinRequest `msg`
/// that came in on a connection of direction `dir`, and `after` what it
/// knows then.
pub open spec fn handles_join(
    before: OverlayView,
    after: OverlayView,
    dir: Direction,
    msg: MessageView,
    r: JoinHandling,
) -> bool {
    if before.seen_join_message_ids.contains(msg.message_id) {
        r is Duplicate && after == before
    } else {
        &&& after == OverlayView {
            seen_join_message_ids: before.seen_join_message_ids.insert(msg.message_id),
            ..before
        }
        &&& msg.ttl <= 1 ==> r is Reply && sent(r->Reply_response) == join_response(
            dir,
            before.own_id,
            msg,
        )
        &&& msg.ttl > 1 ==> r is Flood && sent(r->Flood_response) == join_response(
            dir,
            before.own_id,
            msg,
        ) && r->forwards@.len() == before.connected_peers.len() && forall|i: int|
            0 <= i < r->forwards@.len() ==> (#[trigger] r->forwards@[i]).0
                == before.connected_peers[i] && r->forwards@[i].1.direction()
                == Direction::Outgoing && r->forwards@[i].2@ == forwarded_join(msg)
    }
}

/// What a node does about a message that came back on a JoinConnection over
/// which it had forwarded a request.
#[derive(Debug)]
pub enum Relay {
    /// A JoinResponse: it is sent on, as it is, on the incoming connection.
    Forward(Message),
    /// Not a JoinResponse: this connection is closed, and the next peer's
    /// turn comes.
    NextPeer,
    /// The incoming connection takes no response: the handling ends.
    Abort,
}

/// The answer of a node that knows `v` to a CopyRequest is `r`, handed out on
/// a connection of direction `dir`.
pub open spec fn answers_copy(v: OverlayView, dir: Direction, r: Result<Message, ConnectionError>) -> bool {
    if dir == Direction::Incoming {
        r is Ok && r->Ok_0@ == (MessageView {
            message_id: r->Ok_0.message_id@,
            message_type: if v.state.last_copy_src == v.own_id {
                MessageTypeView::TextResponse { text: v.clipboard }
            } else {
                MessageTypeView::ErrorResponse { state: v.state, error: not_latest_error() }
            },
            src_id: v.own_id,
            ttl: 1,
            hop_count: 0,
        })
    } else {
        r == Err::<Message, ConnectionError>(ConnectionError::NotIncoming)
    }
}

/// What a node knows once it has registered the peer `remote_id`.
pub open spec fn registered(v: OverlayView, remote_id: Endpoint) -> OverlayView {
    OverlayView {
        connected_peers: if v.connected_peers.contains(remote_id) {
            v.connected_peers
        } else {
            v.connected_peers.push(remote_id)
        },
        ..v
    }
}

/// What a node does with a connection that it has accepted.
#[derive(Debug)]
#[allow(inconsistent_fields)]
pub enum Accepted {
    /// A P2PConnection: the peer at its other end is registered, and `peer`
    /// is to read off the connection and write to it from now on.
    Peer { conn: P2PConnection, peer: Peer },
    /// A CopyConnection: `response` is sent, and the connection closed.
    Copy { conn: CopyConnection, response: Result<Message, ConnectionError> },
    /// A JoinConnection: the request is dealt with as `handling` says.
    Join { conn: JoinConnection, handling: JoinHandling },
}

/// The test that keeps every peer but `remote_id`.
pub open spec fn other_than(remote_id: Endpoint) -> spec_fn(Endpoint) -> bool {
    |p: Endpoint| p != remote_id
}

/// A Peer stands for one remote peer that the node holds a P2PConnection to.
#[derive(Debug, Clone, Copy)]
pub struct Peer {
    pub own_id: PeerID,
    pub remote_id: PeerID,
}

/// What a node does about a message that it has read off a P2PConnection.
#[derive(Debug)]
pub enum PeerReaction {
    /// The message is sent back on the same connection.
    Reply(Message),
    /// Nothing is sent.
    Nothing,
    /// The commands are handed to the peers that they name.
    Forward(Vec<(PeerID, P2PSend)>),
    /// The connection is closed.
    Close,
}

/// The message that tells a peer what `command` says, sent by `own_id` with
/// the ID `id`.
pub open spec fn command_message(command: P2PSendView, own_id: Endpoint, id: Seq<u8>) -> MessageView {
    match command {
        P2PSendView::Ping(state) => MessageView {
            message_id: id,
            message_type: MessageTypeView::Ping { state },
            src_id: own_id,
            ttl: 1,
            hop_count: 0,
        },
        P2PSendView::CopyNotification(state) => MessageView {
            message_id: id,
            message_type: MessageTypeView::CopyNotification { state },
            src_id: own_id,
            ttl: 8,
            hop_count: 0,
        },
        P2PSendView::ForwardCopyNotification(state, ttl, hop_count) => MessageView {
            message_id: id,
            message_type: MessageTypeView::CopyNotification { state },
            src_id: own_id,
            ttl,
            hop_count,
        },
    }
}

/// `r` is what the peer actor `peer` does about `msg`, read off its
/// connection by a node that knew `before`, and `after` what the node knows
/// then.
pub open spec fn reacts(
    peer: Peer,
    before: OverlayView,
    after: OverlayView,
    msg: MessageView,
    r: PeerReaction,
) -> bool {
    match msg.message_type {
        MessageTypeView::Ping { state } => {
            &&& after == OverlayView { state: updated(before.state, state), ..before }
            &&& r is Reply
            &&& r->Reply_0@ == MessageView {
                message_id: r->Reply_0.message_id@,
                message_type: MessageTypeView::Pong { state: after.state },
                src_id: peer.own_id,
                ttl: 1,
                hop_count: 0,
            }
        },
        MessageTypeView::Pong { state } => {
            &&& after == OverlayView { state: updated(before.state, state), ..before }
            &&& r is Nothing
        },
        MessageTypeView::CopyNotification { state } => {
            &&& after == OverlayView { state: updated(before.state, state), ..before }
            &&& msg.ttl <= 1 ==> r is Nothing
            &&& msg.ttl > 1 ==> r is Forward && r->Forward_0@.len() == before.connected_peers.filter(
                other_than(peer.remote_id),
            ).len() && forall|i: int|
                0 <= i < r->Forward_0@.len() ==> (#[trigger] r->Forward_0@[i]).0
                    == before.connected_peers.filter(other_than(peer.remote_id))[i]
                    && r->Forward_0@[i].1@ == P2PSendView::ForwardCopyNotification(
                    after.state,
                    (msg.ttl - 1) as u32,
                    (msg.hop_count + 1) as u32,
                )
        },
        _ => after == before && r is Close,
    }
}

/// An Overlay encapsulates the state of one node in the overlay network.
#[derive(Debug)]
pub struct Overlay {
    own_id: PeerID,
    bootstrap_ids: Vec<PeerID>,
    available_ids: Vec<PeerID>,
    connected_peers: Vec<PeerID>,
    state: CopyClock,
    clipboard: String,
    seen_join_message_ids: Vec<MessageID>,
    cached_clipboard: String,
    cache_state: CopyClock,
}

/// What an Overlay knows.
pub struct OverlayView {
    /// The node's own ID.
    pub own_id: Endpoint,
    /// The peers through which the node joins the network.
    pub bootstrap_ids: Seq<Endpoint>,
    /// The peers that have answered the node's join requests.
    pub available_ids: Seq<Endpoint>,
    /// The peers that the node holds a P2PConnection to, none of them twice.
    pub connected_peers: Seq<Endpoint>,
    /// The node's view of the copy history of the network.
    pub state: CopyClockView,
    /// The local text, current while the node itself is the last copier.
    pub clipboard: Seq<char>,
    /// The IDs of the join requests that the node has handled.
    pub seen_join_message_ids: Set<Seq<u8>>,
    /// The text that was last fetched from another peer.
    pub cached_clipboard: Seq<char>,
    /// The state under which that text was fetched.
    pub cache_state: CopyClockView,
}

/// The IDs that a list of message IDs holds.
pub open spec fn ids_of(ids: Seq<MessageID>) -> Set<Seq<u8>> {
    Set::new(|id: Seq<u8>| exists|i: int| 0 <= i < ids.len() && #[trigger] ids[i]@ == id)
}

impl View for Overlay {
    type V = OverlayView;

    closed spec fn view(&self) -> OverlayView {
        OverlayView {
            own_id: self.own_id,
            bootstrap_ids: self.bootstrap_ids@,
            available_ids: self.available_ids@,
            connected_peers: self.connected_peers@,
            state: self.state@,
            clipboard: self.clipboard@,
            seen_join_message_ids: ids_of(self.seen_join_message_ids@),
            cached_clipboard: self.cached_clipboard@,
            cache_state: self.cache_state@,
        }
    }
}

/// What a node knows when it starts out.
pub open spec fn initial(own_id: Endpoint, bootstrap_ids: Seq<Endpoint>) -> OverlayView {
    OverlayView {
        own_id,
        bootstrap_ids,
        available_ids: Seq::empty(),
        connected_peers: Seq::empty(),
        state: CopyClockView { clock: Map::empty(), last_copy_src: own_id },
        clipboard: Seq::empty(),
        seen_join_message_ids: Set::empty(),
        cached_clipboard: Seq::empty(),
        cache_state: CopyClockView { clock: Map::empty(), last_copy_src: own_id },
    }
}

impl Overlay {
    /// No peer is registered twice.
    #[verifier::type_invariant]
    closed spec fn well_formed(&self) -> bool {
        self.connected_peers@.no_duplicates()
    }

    /// Creates the state of a node with the given ID, saving the given
    /// `bootstrap_peers` for bootstrapping. The node has not joined the
    /// network yet: it knows no peer and has seen no copy.
    pub fn new(own_id: PeerID, bootstrap_peers: Vec<PeerID>) -> (overlay: Overlay)
        ensures
            overlay@ == initial(own_id, bootstrap_peers@),
    {
        let overlay = Overlay {
            own_id,
            bootstrap_ids: bootstrap_peers,
            available_ids: Vec::new(),
            connected_peers: Vec::new(),
            state: CopyClock::new(&VectorClock::new(), &own_id),
            clipboard: String::new(),
            seen_join_message_ids: Vec::new(),
            cached_clipboard: String::new(),
            cache_state: CopyClock::new(&VectorClock::new(), &own_id),
        };
        proof {
            assert(overlay@.seen_join_message_ids =~= Set::empty());
        }
        overlay
    }

    /// The node's own ID.
    pub fn own_id(&self) -> (id: PeerID)
        ensures
            id == self@.own_id,
    {
        self.own_id
    }

    /// The node's current view of the copy history.
    pub fn state(&self) -> (state: CopyClock)
        ensures
            state@ == self@.state,
    {
        self.state.clone()
    }

    /// The local text.
    pub fn clipboard(&self) -> (text: String)
        ensures
            text@ == self@.clipboard,
    {
        self.clipboard.clone()
    }

    /// The peers that the node holds a P2PConnection to.
    pub fn connected_peers(&self) -> (peers: Vec<PeerID>)
        ensures
            peers@ == self@.connected_peers,
            peers@.no_duplicates(),
    {
        proof {
            use_type_invariant(self);
        }
        self.connected_peers.clone()
    }

    /// The peers that have answered the node's join requests.
    pub fn available_ids(&self) -> (peers: Vec<PeerID>)
        ensures
            peers@ == self@.available_ids,
    {
        self.available_ids.clone()
    }

    /// Whether the node has handled a join request with the ID `id`.
    pub fn has_seen(&self, id: &MessageID) -> (seen: bool)
        ensures
            seen == self@.seen_join_message_ids.contains(id@),
    {
        contains_id(&self.seen_join_message_ids, id)
    }

    /// Registers the peer `remote_id`, to which a P2PConnection has been
    /// established. A peer that is registered already stays registered once.
    pub fn handle_p2p_connection(&mut self, remote_id: PeerID)
        ensures
            final(self)@ == registered(old(self)@, remote_id),
    {
        proof {
            use_type_invariant(&*self);
        }
        if contains_peer(&self.connected_peers, &remote_id) {
            return;
        }
        let mut peers: Vec<PeerID> = Vec::new();
        std::mem::swap(&mut peers, &mut self.connected_peers);
        peers.push(remote_id);
        self.connected_peers = peers;
    }

    /// One command for every registered peer, in the order of registration.
    fn for_every_peer(&self, notify: bool) -> (commands: Vec<(PeerID, P2PSend)>)
        ensures
            commands@.len() == self@.connected_peers.len(),
            forall|i: int|
                0 <= i < commands@.len() ==> (#[trigger] commands@[i]).0
                    == self@.connected_peers[i] && commands@[i].1@ == (if notify {
                    P2PSendView::CopyNotification(self@.state)
                } else {
                    P2PSendView::Ping(self@.state)
                }),
    {
        let mut commands: Vec<(PeerID, P2PSend)> = Vec::new();
        let mut i: usize = 0;
        while i < self.connected_peers.len()
            invariant
                i <= self.connected_peers@.len(),
                commands@.len() == i,
                forall|j: int|
                    0 <= j < i ==> (#[trigger] commands@[j]).0 == self.connected_peers@[j]
                        && commands@[j].1@ == (if notify {
                        P2PSendView::CopyNotification(self.state@)
                    } else {
                        P2PSendView::Ping(self.state@)
                    }),
            decreases self.connected_peers@.len() - i,
        {
            let command = if notify {
                P2PSend::CopyNotification(self.state.clone())
            } else {
                P2PSend::Ping(self.state.clone())
            };
            commands.push((self.connected_peers[i], command));
            i += 1;
        }
        commands
    }

    /// Sets the clipboard to the given `clipboard`. This makes the node the
    /// last copier, counts one more event for it, and returns the
    /// CopyNotification to send to each connected peer.
    pub fn set_clipboard(&mut self, clipboard: &str) -> (notifications: Vec<(PeerID, P2PSend)>)
        requires
            count(old(self)@.state.clock, old(self)@.own_id.name()) < u64::MAX,
        ensures
            final(self)@ == (OverlayView {
                clipboard: clipboard@,
                state: CopyClockView {
                    clock: incremented(old(self)@.state.clock, old(self)@.own_id.name()),
                    last_copy_src: old(self)@.own_id,
                },
                ..old(self)@
            }),
            notifications@.len() == final(self)@.connected_peers.len(),
            forall|i: int|
                0 <= i < notifications@.len() ==> (#[trigger] notifications@[i]).0
                    == final(self)@.connected_peers[i] && notifications@[i].1@
                    == P2PSendView::CopyNotification(final(self)@.state),
    {
        proof {
            use_type_invariant(&*self);
        }
        self.clipboard = clipboard.to_owned();
        let next = CopyClock {
            clock: self.state.clock.incr_clone(self.own_id),
            last_copy_src: self.own_id,
        };
        self.state = next;
        self.for_every_peer(true)
    }

    /// Looks for the latest clipboard. If the node itself holds it, the
    /// lookup is `Local`. If the text fetched last is still the latest, it
    /// is returned. Otherwise a CopyConnection is to be opened to the peer
    /// who is believed to have the latest clipboard, and the answer handed
    /// to `receive_copy_response`.
    pub fn get_clipboard(&self) -> (r: ClipboardLookup)
        ensures
            r.outcome() == lookup(self@),
            r matches ClipboardLookup::Remote { conn, request, .. } ==> conn.direction()
                == Direction::Outgoing && request@ == (MessageView {
                message_id: request.message_id@,
                message_type: MessageTypeView::CopyRequest { content_type: text_content_type() },
                src_id: self@.own_id,
                ttl: 1,
                hop_count: 0,
            }),
    {
        if self.state.last_copy_src == self.own_id {
            return ClipboardLookup::Local;
        }
        if self.cache_state == self.state {
            return ClipboardLookup::Cached(self.cached_clipboard.clone());
        }
        let content_type = "text".to_owned();
        let (conn, request) = CopyConnection::open(&self.own_id, &content_type);
        ClipboardLookup::Remote { holder: self.state.last_copy_src, conn, request }
    }

    /// Takes the answer to the CopyRequest of `get_clipboard`. A
    /// TextResponse is remembered, together with the state under which it
    /// came, and its text returned. An ErrorResponse updates the node's
    /// state from the state that it carries, and is an error; so is any other
    /// message.
    pub fn receive_copy_response(&mut self, response: Message) -> (r: Result<
        Option<String>,
        ClipboardError,
    >)
        ensures
            response@.message_type is TextResponse ==> final(self)@ == after_text(
                old(self)@,
                response@.message_type->text,
            ) && (r matches Ok(Some(text)) && text@ == response@.message_type->text),
            response@.message_type is ErrorResponse ==> final(self)@ == (OverlayView {
                state: updated(old(self)@.state, response@.message_type->ErrorResponse_state),
                ..old(self)@
            }) && (r matches Err(ClipboardError::Remote(error)) && error@
                == response@.message_type->error),
            !(response@.message_type is TextResponse || response@.message_type is ErrorResponse)
                ==> final(self)@ == old(self)@ && r matches Err(ClipboardError::InvalidReply),
    {
        proof {
            use_type_invariant(&*self);
        }
        match response.message_type {
            MessageType::ErrorResponse { state, error } => {
                self.state = newer_state(&self.state, state);
                Err(ClipboardError::Remote(error))
            },
            MessageType::TextResponse { text } => {
                self.cached_clipboard = text.clone();
                self.cache_state = self.state.clone();
                Ok(Some(text))
            },
            _ => Err(ClipboardError::InvalidReply),
        }
    }

    /// Answers a CopyRequest that has come in on `c`: with the clipboard if
    /// the node is the last copier, otherwise with an error that carries the
    /// node's state.
    pub fn handle_copy_connection(&self, c: &CopyConnection) -> (r: Result<
        Message,
        ConnectionError,
    >)
        ensures
            answers_copy(self@, c.direction(), r),
    {
        if self.state.last_copy_src != self.own_id {
            let error = "I don't have the latest clipboard".to_owned();
            return c.respond_error(&error, &self.state, &self.own_id);
        }
        c.respond(&self.clipboard, &self.own_id)
    }

    /// Decides when the node pings its peers: first after a random delay of
    /// one to five seconds, so that nodes started together do not ping in
    /// step, then every ten seconds.
    pub fn start_autoping(&self) -> (schedule: AutopingSchedule)
        ensures
            1000 <= schedule.initial_delay_ms < 5000,
            schedule.interval_secs == 10,
    {
        AutopingSchedule {
            initial_delay_ms: random_between(PING_JITTER_LOW_MS, PING_JITTER_HIGH_MS),
            interval_secs: PING_INTERVAL_SECS,
        }
    }

    /// One round of pings: a Ping with the node's current state for every
    /// connected peer.
    pub fn ping_round(&self) -> (pings: Vec<(PeerID, P2PSend)>)
        ensures
            pings@.len() == self@.connected_peers.len(),
            forall|i: int|
                0 <= i < pings@.len() ==> (#[trigger] pings@[i]).0 == self@.connected_peers[i]
                    && pings@[i].1@ == P2PSendView::Ping(self@.state),
    {
        self.for_every_peer(false)
    }

    /// Removes the peers of `failed`, to which nothing could be sent, from
    /// the connected peers.
    pub fn evict(&mut self, failed: &Vec<PeerID>)
        ensures
            final(self)@ == (OverlayView {
                connected_peers: old(self)@.connected_peers.filter(not_among(failed@)),
                ..old(self)@
            }),
    {
        proof {
            use_type_invariant(&*self);
        }
        let ghost peers = self.connected_peers@;
        let ghost keep = not_among(failed@);
        let mut kept: Vec<PeerID> = Vec::new();
        let mut i: usize = 0;
        while i < self.connected_peers.len()
            invariant
                peers == self.connected_peers@,
                peers.no_duplicates(),
                keep == not_among(failed@),
                i <= peers.len(),
                kept@ == peers.take(i as int).filter(keep),
                kept@.no_duplicates(),
                forall|k: int|
                    0 <= k < kept@.len() ==> exists|j: int|
                        0 <= j < i && peers[j] == #[trigger] kept@[k],
            decreases peers.len() - i,
        {
            let peer = self.connected_peers[i];
            let gone = contains_peer(failed, &peer);
            proof {
                assert(peers.take(i + 1).drop_last() =~= peers.take(i as int));
                assert(peers.take(i + 1).last() == peers[i as int]);
                reveal_with_fuel(Seq::filter, 2);
            }
            if !gone {
                kept.push(peer);
                proof {
                    assert forall|k: int| 0 <= k < kept@.len() implies exists|j: int|
                        0 <= j < i + 1 && peers[j] == #[trigger] kept@[k] by {
                        if k == kept@.len() - 1 {
                            assert(peers[i as int] == kept@[k]);
                        } else {
                            let j = choose|j: int| 0 <= j < i && peers[j] == kept@.drop_last()[k];
                            assert(peers[j] == kept@[k]);
                        }
                    }
                }
            }
            i += 1;
        }
        proof {
            assert(peers.take(i as int) =~= peers);
        }
        self.connected_peers = kept;
    }

    /// Starts joining the overlay network: for each bootstrap peer, in
    /// order, the JoinConnection to open and the JoinRequest to send on it,
    /// with TTL=8.
    pub fn perform_join(&self) -> (requests: Vec<(PeerID, JoinConnection, Message)>)
        ensures
            requests@.len() == self@.bootstrap_ids.len(),
            forall|i: int|
                0 <= i < requests@.len() ==> (#[trigger] requests@[i]).0 == self@.bootstrap_ids[i]
                    && requests@[i].1.direction() == Direction::Outgoing && requests@[i].2@
                    == (MessageView {
                    message_id: requests@[i].2.message_id@,
                    message_type: MessageTypeView::JoinRequest,
                    src_id: self@.own_id,
                    ttl: 8,
                    hop_count: 0,
                }),
    {
        let mut requests: Vec<(PeerID, JoinConnection, Message)> = Vec::new();
        let mut i: usize = 0;
        while i < self.bootstrap_ids.len()
            invariant
                i <= self.bootstrap_ids@.len(),
                requests@.len() == i,
                forall|j: int|
                    0 <= j < i ==> (#[trigger] requests@[j]).0 == self.bootstrap_ids@[j]
                        && requests@[j].1.direction() == Direction::Outgoing && requests@[j].2@
                        == (MessageView {
                        message_id: requests@[j].2.message_id@,
                        message_type: MessageTypeView::JoinRequest,
                        src_id: self.own_id,
                        ttl: 8,
                        hop_count: 0,
                    }),
            decreases self.bootstrap_ids@.len() - i,
        {
            let (conn, request) = JoinConnection::open(&self.own_id, JOIN_TTL);
            requests.push((self.bootstrap_ids[i], conn, request));
            i += 1;
        }
        requests
    }

    /// Takes a message that came back on one of the node's own
    /// JoinConnections. A JoinResponse that is meant for this node makes its
    /// source an available peer, and reading goes on. Anything else is
    /// dropped, and the connection with it.
    pub fn perform_join_single(&mut self, msg: &Message) -> (more: bool)
        ensures
            more == (msg@.message_type is JoinResponse && msg@.message_type->target == old(self)@.own_id),
            more ==> final(self)@ == (OverlayView {
                available_ids: old(self)@.available_ids.push(msg.src_id),
                ..old(self)@
            }),
            !more ==> final(self)@ == old(self)@,
    {
        proof {
            use_type_invariant(&*self);
        }
        match msg.message_type {
            MessageType::JoinResponse { target } => {
                if target != self.own_id {
                    return false;
                }
                let mut available: Vec<PeerID> = Vec::new();
                std::mem::swap(&mut available, &mut self.available_ids);
                available.push(msg.src_id);
                self.available_ids = available;
                true
            },
            _ => false,
        }
    }

    /// Settles which peers to connect to, once all bootstrap peers have been
    /// asked: the available peers, each once, in ascending order. With none,
    /// the join fails. Otherwise each comes with the P2PConnection to open to
    /// it and the Ping to send first.
    pub fn choose_peers(&mut self) -> (r: Result<
        Vec<(PeerID, P2PConnection, Message)>,
        JoinError,
    >)
        ensures
            final(self)@ == (OverlayView {
                available_ids: final(self)@.available_ids,
                ..old(self)@
            }),
            ascending_ranks(final(self)@.available_ids),
            final(self)@.available_ids.to_set() == old(self)@.available_ids.to_set(),
            old(self)@.available_ids.len() == 0 ==> r == Err::<
                Vec<(PeerID, P2PConnection, Message)>,
                JoinError,
            >(JoinError::NoPeers),
            old(self)@.available_ids.len() > 0 ==> r is Ok && r->Ok_0@.len() == final(self)@.available_ids.len() && forall|i: int|
                0 <= i < r->Ok_0@.len() ==> (#[trigger] r->Ok_0@[i]).0 == final(self)@.available_ids[i] && r->Ok_0@[i].1.direction() == Direction::Outgoing
                    && r->Ok_0@[i].2@ == (MessageView {
                    message_id: r->Ok_0@[i].2.message_id@,
                    message_type: MessageTypeView::Ping { state: old(self)@.state },
                    src_id: old(self)@.own_id,
                    ttl: 1,
                    hop_count: 0,
                }),
    {
        proof {
            use_type_invariant(&*self);
        }
        let ghost before = self.available_ids@;
        let mut ids: Vec<PeerID> = Vec::new();
        let mut i: usize = 0;
        while i < self.available_ids.len()
            invariant
                before == self.available_ids@,
                i <= before.len(),
                ascending_ranks(ids@),
                ids@.to_set() == before.take(i as int).to_set(),
            decreases before.len() - i,
        {
            let ghost so_far = ids@;
            ids = insert_peer(ids, self.available_ids[i]);
            proof {
                let a = before.take(i as int);
                let b = before.take(i + 1);
                assert forall|x: Endpoint| b.contains(x) <==> (a.contains(x) || x == before[i as int]) by {
                    if b.contains(x) {
                        let k = choose|k: int| 0 <= k < b.len() && b[k] == x;
                        if k < i {
                            assert(a[k] == x);
                        }
                    }
                    if a.contains(x) {
                        let k = choose|k: int| 0 <= k < a.len() && a[k] == x;
                        assert(b[k] == x);
                    }
                    if x == before[i as int] {
                        assert(b[i as int] == x);
                    }
                }
                assert(ids@.to_set() =~= b.to_set());
            }
            i += 1;
        }
        proof {
            assert(before.take(i as int) =~= before);
            if before.len() > 0 {
                assert(before.contains(before[0]));
                assert(ids@.to_set().contains(before[0]));
            } else {
                if ids@.len() > 0 {
                    assert(ids@.contains(ids@[0]));
                    assert(before.to_set().contains(ids@[0]));
                }
            }
        }
        self.available_ids = ids;
        if self.available_ids.len() == 0 {
            return Err(JoinError::NoPeers);
        }
        let mut plan: Vec<(PeerID, P2PConnection, Message)> = Vec::new();
        let mut i: usize = 0;
        while i < self.available_ids.len()
            invariant
                i <= self.available_ids@.len(),
                plan@.len() == i,
                forall|j: int|
                    0 <= j < i ==> (#[trigger] plan@[j]).0 == self.available_ids@[j]
                        && plan@[j].1.direction() == Direction::Outgoing && plan@[j].2@
                        == (MessageView {
                        message_id: plan@[j].2.message_id@,
                        message_type: MessageTypeView::Ping { state: self.state@ },
                        src_id: self.own_id,
                        ttl: 1,
                        hop_count: 0,
                    }),
            decreases self.available_ids@.len() - i,
        {
            let (conn, ping) = P2PConnection::open(&self.own_id, &self.state);
            plan.push((self.available_ids[i], conn, ping));
            i += 1;
        }
        Ok(plan)
    }

    /// Ends the join, once the P2PConnections have been tried: the join has
    /// failed if the node is connected to no peer.
    pub fn finish_join(&self) -> (r: Result<(), JoinError>)
        ensures
            self@.connected_peers.len() == 0 ==> r == Err::<(), JoinError>(
                JoinError::NotConnected,
            ),
            self@.connected_peers.len() > 0 ==> r == Ok::<(), JoinError>(()),
    {
        if self.connected_peers.len() == 0 {
            return Err(JoinError::NotConnected);
        }
        Ok(())
    }

    /// Deals with the JoinRequest `msg` that has come in on `c`. A request
    /// seen before is dropped. A new one is remembered; with a TTL of one or
    /// less it is answered, otherwise it is forwarded to every connected peer
    /// and then answered.
    pub fn handle_join_connection(&mut self, c: &JoinConnection, msg: &Message) -> (r:
        JoinHandling)
        requires
            msg.ttl > 1 ==> msg.hop_count < u32::MAX,
        ensures
            handles_join(old(self)@, final(self)@, c.direction(), msg@, r),
            final(self)@.seen_join_message_ids.contains(msg.message_id@),
    {
        proof {
            use_type_invariant(&*self);
        }
        if contains_id(&self.seen_join_message_ids, &msg.message_id) {
            return JoinHandling::Duplicate;
        }
        let ghost seen_before = self.seen_join_message_ids@;
        let mut seen: Vec<MessageID> = Vec::new();
        std::mem::swap(&mut seen, &mut self.seen_join_message_ids);
        seen.push(msg.message_id);
        self.seen_join_message_ids = seen;
        proof {
            let ids = self.seen_join_message_ids@;
            assert(ids[ids.len() - 1]@ == msg.message_id@);
            assert forall|id: Seq<u8>|
                ids_of(ids).contains(id) <==> ids_of(seen_before).insert(
                    msg.message_id@,
                ).contains(id) by {
                if ids_of(ids).contains(id) {
                    let k = choose|k: int| 0 <= k < ids.len() && #[trigger] ids[k]@ == id;
                    if k < seen_before.len() {
                        assert(seen_before[k]@ == id);
                    }
                }
                if ids_of(seen_before).contains(id) {
                    let k = choose|k: int|
                        0 <= k < seen_before.len() && #[trigger] seen_before[k]@ == id;
                    assert(ids[k]@ == id);
                }
            }
            assert(ids_of(ids) =~= ids_of(seen_before).insert(msg.message_id@));
        }
        if msg.ttl <= 1 {
            return JoinHandling::Reply { response: c.respond(&self.own_id, msg) };
        }
        let mut forwards: Vec<(PeerID, JoinConnection, Message)> = Vec::new();
        let mut i: usize = 0;
        while i < self.connected_peers.len()
            invariant
                msg.ttl > 1,
                msg.hop_count < u32::MAX,
                i <= self.connected_peers@.len(),
                forwards@.len() == i,
                forall|j: int|
                    0 <= j < i ==> (#[trigger] forwards@[j]).0 == self.connected_peers@[j]
                        && forwards@[j].1.direction() == Direction::Outgoing && forwards@[j].2@
                        == forwarded_join(msg@),
            decreases self.connected_peers@.len() - i,
        {
            let (conn, forwarded) = JoinConnection::forward(msg);
            forwards.push((self.connected_peers[i], conn, forwarded));
            i += 1;
        }
        JoinHandling::Flood { forwards, response: c.respond(&self.own_id, msg) }
    }

    /// Deals with `received`, a message that came back on a JoinConnection
    /// over which a request had been forwarded: a JoinResponse travels on
    /// towards the joining peer on the incoming connection `c`.
    pub fn relay_join_response(c: &JoinConnection, received: &Message) -> (r: Relay)
        ensures
            !(received@.message_type is JoinResponse) ==> r is NextPeer,
            received@.message_type is JoinResponse && c.direction() != Direction::Incoming
                ==> r is Abort,
            received@.message_type is JoinResponse && c.direction() == Direction::Incoming
                ==> r is Forward && r->Forward_0@ == received@,
    {
        match received.message_type {
            MessageType::JoinResponse { target } => {
                match c.forward_response(received, &target) {
                    Ok(forwarded) => Relay::Forward(forwarded),
                    Err(_) => Relay::Abort,
                }
            },
            _ => Relay::NextPeer,
        }
    }

    /// Deals with a connection that has been accepted, by the kind that its
    /// first message gave it: the peer of a P2PConnection is registered, a
    /// CopyRequest is answered, a JoinRequest is handled.
    pub fn start_accepting(&mut self, incoming: IncomingConnection) -> (r: Accepted)
        requires
            incoming.conn is Join && incoming.first_msg.ttl > 1 ==> incoming.first_msg.hop_count
                < u32::MAX,
        ensures
            incoming.conn is P2P ==> r is Peer && r->Peer_conn == incoming.conn->P2P_0 && r->peer
                == (Peer { own_id: old(self)@.own_id, remote_id: incoming.first_msg.src_id })
                && final(self)@ == registered(old(self)@, incoming.first_msg.src_id),
            incoming.conn is Copy ==> r is Copy && r->Copy_conn == incoming.conn->Copy_0
                && final(self)@ == old(self)@ && answers_copy(
                old(self)@,
                incoming.conn->Copy_0.direction(),
                r->Copy_response,
            ),
            incoming.conn is Join ==> r is Join && r->Join_conn == incoming.conn->Join_0
                && handles_join(
                old(self)@,
                final(self)@,
                incoming.conn->Join_0.direction(),
                incoming.first_msg@,
                r->handling,
            ),
    {
        match incoming.conn {
            Connection::P2P(conn) => {
                let peer = Peer::new(self.own_id, incoming.first_msg.src_id);
                self.handle_p2p_connection(incoming.first_msg.src_id);
                Accepted::Peer { conn, peer }
            },
            Connection::Copy(conn) => {
                let response = self.handle_copy_connection(&conn);
                Accepted::Copy { conn, response }
            },
            Connection::Join(conn) => {
                let handling = self.handle_join_connection(&conn, &incoming.first_msg);
                Accepted::Join { conn, handling }
            },
        }
    }
}

/// Whether `peers` holds `peer`.
fn contains_peer(peers: &Vec<PeerID>, peer: &PeerID) -> (found: bool)
    ensures
        found == peers@.contains(*peer),
{
    let mut i: usize = 0;
    while i < peers.len()
        invariant
            i <= peers@.len(),
            forall|j: int| 0 <= j < i ==> peers@[j] != *peer,
        decreases peers@.len() - i,
    {
        if peers[i] == *peer {
            return true;
        }
        i += 1;
    }
    false
}

/// Whether two message IDs are the same.
fn same_id(a: &MessageID, b: &MessageID) -> (same: bool)
    ensures
        same == (a@ == b@),
{
    let mut i: usize = 0;
    while i < 16
        invariant
            i <= 16,
            forall|j: int| 0 <= j < i ==> a@[j] == b@[j],
        decreases 16 - i,
    {
        if a[i] != b[i] {
            return false;
        }
        i += 1;
    }
    proof {
        assert(a@ =~= b@);
    }
    true
}

/// Whether `ids` holds `id`.
fn contains_id(ids: &Vec<MessageID>, id: &MessageID) -> (found: bool)
    ensures
        found == ids_of(ids@).contains(id@),
{
    let mut i: usize = 0;
    while i < ids.len()
        invariant
            i <= ids@.len(),
            forall|j: int| 0 <= j < i ==> (#[trigger] ids@[j])@ != id@,
        decreases ids@.len() - i,
    {
        if same_id(&ids[i], id) {
            return true;
        }
        i += 1;
    }
    false
}

/// The rank of an endpoint.
fn rank_of(e: &Endpoint) -> (r: u64)
    ensures
        r == e.rank(),
{
    e.ip as u64 * 65536 + e.port as u64
}

/// Puts `peer` in its place in an ascending list of peers, unless the list
/// holds it already.
fn insert_peer(sorted: Vec<PeerID>, peer: PeerID) -> (r: Vec<PeerID>)
    requires
        ascending_ranks(sorted@),
    ensures
        ascending_ranks(r@),
        r@.to_set() == sorted@.to_set().insert(peer),
{
    let mut out: Vec<PeerID> = Vec::new();
    let mut placed = false;
    let mut i: usize = 0;
    while i < sorted.len()
        invariant
            ascending_ranks(sorted@),
            ascending_ranks(out@),
            i <= sorted@.len(),
            forall|k: int|
                0 <= k < out@.len() ==> #[trigger] out@[k] == peer || exists|j: int|
                    0 <= j < i && sorted@[j] == out@[k],
            forall|j: int| 0 <= j < i ==> out@.contains(#[trigger] sorted@[j]),
            placed ==> out@.contains(peer),
            !placed ==> forall|k: int| 0 <= k < out@.len() ==> (#[trigger] out@[k]).rank() < peer.rank(),
            forall|k: int, j: int|
                0 <= k < out@.len() && i <= j < sorted@.len() ==> (#[trigger] out@[k]).rank() < (
                #[trigger] sorted@[j]).rank(),
        decreases sorted@.len() - i,
    {
        let e = sorted[i];
        let ghost prior = out@;
        if !placed && rank_of(&e) == rank_of(&peer) {
            proof {
                assert(seq![e.rank()] =~= seq![peer.rank()]);
                Endpoint::lemma_name_determines(e, peer);
            }
            out.push(e);
            placed = true;
        } else if !placed && rank_of(&e) > rank_of(&peer) {
            out.push(peer);
            out.push(e);
            placed = true;
            proof {
                assert(out@[out@.len() - 2] == peer);
            }
        } else {
            out.push(e);
        }
        proof {
            assert(out@[out@.len() - 1] == e);
            assert forall|k: int| 0 <= k < out@.len() implies #[trigger] out@[k] == peer
                || exists|j: int| 0 <= j < i + 1 && sorted@[j] == out@[k] by {
                if k < prior.len() {
                    assert(out@[k] == prior[k]);
                    if prior[k] != peer {
                        let j = choose|j: int| 0 <= j < i && sorted@[j] == prior[k];
                        assert(sorted@[j] == out@[k]);
                    }
                } else if out@[k] != peer {
                    assert(sorted@[i as int] == out@[k]);
                }
            }
            assert forall|j: int| 0 <= j < i + 1 implies out@.contains(#[trigger] sorted@[j]) by {
                if j < i {
                    assert(prior.contains(sorted@[j]));
                    let k = choose|k: int| 0 <= k < prior.len() && prior[k] == sorted@[j];
                    assert(out@[k] == sorted@[j]);
                }
            }
            if placed && prior.contains(peer) {
                let k = choose|k: int| 0 <= k < prior.len() && prior[k] == peer;
                assert(out@[k] == peer);
            }
            assert forall|k: int, j: int|
                0 <= k < out@.len() && i + 1 <= j < sorted@.len() implies (#[trigger] out@[k]).rank()
                < (#[trigger] sorted@[j]).rank() by {
                if k < prior.len() {
                    assert(out@[k] == prior[k]);
                } else if out@[k] == e {
                    assert(sorted@[i as int].rank() < sorted@[j].rank());
                } else {
                    assert(sorted@[i as int].rank() < sorted@[j].rank());
                }
            }
            assert forall|x: int, y: int| 0 <= x < y < out@.len() implies (#[trigger] out@[x]).rank()
                < (#[trigger] out@[y]).rank() by {
                if y < prior.len() {
                    assert(out@[x] == prior[x] && out@[y] == prior[y]);
                } else if x < prior.len() {
                    assert(out@[x] == prior[x]);
                    assert(prior[x].rank() < sorted@[i as int].rank());
                }
            }
        }
        i += 1;
    }
    if !placed {
        let ghost prior = out@;
        out.push(peer);
        proof {
            assert(out@[out@.len() - 1] == peer);
            assert forall|j: int| 0 <= j < sorted@.len() implies out@.contains(#[trigger] sorted@[j]) by {
                assert(prior.contains(sorted@[j]));
                let k = choose|k: int| 0 <= k < prior.len() && prior[k] == sorted@[j];
                assert(out@[k] == sorted@[j]);
            }
            assert forall|x: int, y: int| 0 <= x < y < out@.len() implies (#[trigger] out@[x]).rank()
                < (#[trigger] out@[y]).rank() by {
                assert(out@[x] == prior[x]);
                if y < prior.len() {
                    assert(out@[y] == prior[y]);
                }
            }
        }
    }
    proof {
        assert forall|x: Endpoint| out@.contains(x) <==> (sorted@.contains(x) || x == peer) by {
            if out@.contains(x) {
                let k = choose|k: int| 0 <= k < out@.len() && out@[k] == x;
                if x != peer {
                    let j = choose|j: int| 0 <= j < sorted@.len() && sorted@[j] == out@[k];
                    assert(sorted@.contains(x));
                }
            }
            if sorted@.contains(x) {
                let j = choose|j: int| 0 <= j < sorted@.len() && sorted@[j] == x;
                assert(out@.contains(sorted@[j]));
            }
        }
        assert(out@.to_set() =~= sorted@.to_set().insert(peer));
    }
    out
}

impl Peer {
    /// The actor for the peer `remote_id` of the node `own_id`.
    pub fn new(own_id: PeerID, remote_id: PeerID) -> (peer: Peer)
        ensures
            peer == (Peer { own_id, remote_id }),
    {
        Peer { own_id, remote_id }
    }

    /// The reader's step: deals with `received`, a message read off the
    /// connection `conn` to the peer. A Ping updates the node's state and is
    /// answered with a Pong; a Pong updates the state; a CopyNotification
    /// updates the state and, while its TTL lasts, is forwarded to every
    /// other connected peer. Any other message closes the connection.
    pub fn receive(&self, overlay: &mut Overlay, conn: &P2PConnection, received: Message) -> (r:
        PeerReaction)
        requires
            received@.message_type is CopyNotification && received.ttl > 1 ==> received.hop_count
                < u32::MAX,
        ensures
            reacts(*self, old(overlay)@, final(overlay)@, received@, r),
    {
        proof {
            use_type_invariant(&*overlay);
        }
        let msg = match conn.read_message(received) {
            Ok(msg) => msg,
            Err(_) => {
                return PeerReaction::Close;
            },
        };
        let ttl = msg.ttl;
        let hop_count = msg.hop_count;
        match msg.message_type {
            MessageType::Ping { state } => {
                overlay.state = newer_state(&overlay.state, state);
                PeerReaction::Reply(conn.pong(&overlay.state, &self.own_id))
            },
            MessageType::Pong { state } => {
                overlay.state = newer_state(&overlay.state, state);
                PeerReaction::Nothing
            },
            MessageType::CopyNotification { state } => {
                overlay.state = newer_state(&overlay.state, state);
                if ttl <= 1 {
                    return PeerReaction::Nothing;
                }
                let new_ttl = ttl - 1;
                let new_hop_count = hop_count + 1;
                let ghost peers = overlay.connected_peers@;
                let ghost keep = other_than(self.remote_id);
                let mut commands: Vec<(PeerID, P2PSend)> = Vec::new();
                let mut i: usize = 0;
                while i < overlay.connected_peers.len()
                    invariant
                        peers == overlay.connected_peers@,
                        keep == other_than(self.remote_id),
                        i <= peers.len(),
                        commands@.len() == peers.take(i as int).filter(keep).len(),
                        forall|k: int|
                            0 <= k < commands@.len() ==> (#[trigger] commands@[k]).0
                                == peers.take(i as int).filter(keep)[k] && commands@[k].1@
                                == P2PSendView::ForwardCopyNotification(
                                overlay.state@,
                                new_ttl,
                                new_hop_count,
                            ),
                    decreases peers.len() - i,
                {
                    let peer = overlay.connected_peers[i];
                    proof {
                        assert(peers.take(i + 1).drop_last() =~= peers.take(i as int));
                        assert(peers.take(i + 1).last() == peers[i as int]);
                        reveal_with_fuel(Seq::filter, 2);
                    }
                    if peer != self.remote_id {
                        commands.push(
                            (
                                peer,
                                P2PSend::ForwardCopyNotification(
                                    overlay.state.clone(),
                                    new_ttl,
                                    new_hop_count,
                                ),
                            ),
                        );
                    }
                    i += 1;
                }
                proof {
                    assert(peers.take(i as int) =~= peers);
                }
                PeerReaction::Forward(commands)
            },
            _ => PeerReaction::Close,
        }
    }

    /// The writer's step: the message that carries `command` to the peer.
    pub fn send(&self, conn: &P2PConnection, command: &P2PSend) -> (m: Message)
        ensures
            m@ == command_message(command@, self.own_id, m.message_id@),
    {
        match command {
            P2PSend::Ping(clock) => conn.ping(clock, &self.own_id),
            P2PSend::CopyNotification(clock) => conn.notify_copy(clock, &self.own_id),
            P2PSend::ForwardCopyNotification(clock, ttl, hop_count) => conn.forward_notify_copy(
                clock,
                &self.own_id,
                *ttl,
                *hop_count,
            ),
        }
    }
}

/// Two nodes that exchange their states settle on the same one: whichever
/// of two different clocks a node holds and whichever it receives, it keeps
/// the same of the two. With equal clocks each keeps its own, and the clocks
/// agree.
pub proof fn lemma_update_agrees(a: CopyClockView, b: CopyClockView)
    requires
        valid(a.clock),
        valid(b.clock),
    ensures
        updated(a, b).clock == updated(b, a).clock,
        !same_counts(a.clock, b.clock) ==> updated(a, b) == updated(b, a),
{
    lemma_relation_antisymmetric(a.clock, b.clock);
    if same_counts(a.clock, b.clock) {
        lemma_same_counts_equal(a.clock, b.clock);
    }
}

/// Receiving the same state a second time changes nothing.
pub proof fn lemma_update_idempotent(a: CopyClockView, b: CopyClockView)
    ensures
        updated(updated(a, b), b) == updated(a, b),
{
}

/// A JoinRequest that comes in a second time is dropped: whatever a node
/// did about a request, it does nothing about another with the same ID, and
/// learns nothing from it.
pub proof fn lemma_join_request_handled_once(
    before: OverlayView,
    between: OverlayView,
    after: OverlayView,
    first: MessageView,
    second: MessageView,
    first_dir: Direction,
    second_dir: Direction,
    first_handling: JoinHandling,
    second_handling: JoinHandling,
)
    requires
        handles_join(before, between, first_dir, first, first_handling),
        handles_join(between, after, second_dir, second, second_handling),
        second.message_id == first.message_id,
    ensures
        second_handling is Duplicate,
        after == between,
{
}

/// Once a text has been fetched, another lookup under the same state finds
/// it in the cache: no second fetch is made.
pub proof fn lemma_fetched_text_is_cached(v: OverlayView, text: Seq<char>)
    requires
        v.state.last_copy_src != v.own_id,
    ensures
        lookup(after_text(v, text)) == LookupView::Cached(text),
{
}

} // verus!
