use shared_clipboard::clock::{TemporalRelation, VectorClock};
use shared_clipboard::network::{
    accept, Connection, ConnectionError, CopyClock, CopyConnection, Direction, Endpoint,
    JoinConnection, Message, MessageType, P2PConnection,
};
use shared_clipboard::overlay::{
    update_state, Accepted, ClipboardError, ClipboardLookup, JoinError, JoinHandling, Overlay,
    P2PSend, Peer, PeerReaction, Relay,
};

fn node(last: u8) -> Endpoint {
    Endpoint::new(&[127, 0, 0, 1], 4000 + last as u16)
}

fn clock_of(hosts: &[Endpoint]) -> VectorClock<Endpoint> {
    let mut clock = VectorClock::new();
    for h in hosts {
        clock.incr(*h);
    }
    clock
}

fn state_of(hosts: &[Endpoint], last: Endpoint) -> CopyClock {
    CopyClock::new(&clock_of(hosts), &last)
}

/// Hands every command to the actor that the receiving node runs for the
/// sender, and returns what those actors want forwarded.
fn deliver(
    from: Endpoint,
    commands: Vec<(Endpoint, P2PSend)>,
    nodes: &mut [&mut Overlay],
) -> Vec<(Endpoint, Vec<(Endpoint, P2PSend)>)> {
    let writer = Peer::new(from, from);
    let (conn, _) = P2PConnection::open(&from, &state_of(&[], from));
    let mut forwards = Vec::new();
    for (to, command) in commands {
        let msg = writer.send(&conn, &command);
        let target = nodes
            .iter_mut()
            .find(|n| n.own_id() == to)
            .expect("a command for a node that is not there");
        let reader = Peer::new(to, from);
        match reader.receive(target, &conn, msg) {
            PeerReaction::Forward(more) => forwards.push((to, more)),
            PeerReaction::Nothing => {}
            other => panic!("unexpected reaction: {:?}", other),
        }
    }
    forwards
}

/// One round of pings from `a`, answered by `b`.
fn ping(a: &mut Overlay, b: &mut Overlay) {
    let writer = Peer::new(a.own_id(), b.own_id());
    let reader = Peer::new(b.own_id(), a.own_id());
    let (conn, _) = P2PConnection::open(&a.own_id(), &a.state());
    for (to, command) in a.ping_round() {
        if to != b.own_id() {
            continue;
        }
        let msg = writer.send(&conn, &command);
        let pong = match reader.receive(b, &conn, msg) {
            PeerReaction::Reply(pong) => pong,
            other => panic!("unexpected reaction: {:?}", other),
        };
        assert!(matches!(&pong.message_type, MessageType::Pong { state } if *state == b.state()));
        assert!(matches!(writer.receive(a, &conn, pong), PeerReaction::Nothing));
    }
}

/// Connects `a` and `b` as peers of each other.
fn connect(a: &mut Overlay, b: &mut Overlay) {
    let (_, ping) = P2PConnection::open(&a.own_id(), &a.state());
    let accepted = b.start_accepting(accept(ping).unwrap());
    assert!(matches!(accepted, Accepted::Peer { peer, .. }
        if peer.own_id == b.own_id() && peer.remote_id == a.own_id()));
    a.handle_p2p_connection(b.own_id());
}

/// Fetches the clipboard for `asker` from `holder`.
fn fetch(asker: &mut Overlay, holder: &mut Overlay) -> Result<Option<String>, ClipboardError> {
    match asker.get_clipboard() {
        ClipboardLookup::Local => Ok(None),
        ClipboardLookup::Cached(text) => Ok(Some(text)),
        ClipboardLookup::Remote { holder: id, conn, request } => {
            assert_eq!(id, holder.own_id());
            assert_eq!(conn.dir(), Direction::Outgoing);
            let response = match holder.start_accepting(accept(request).unwrap()) {
                Accepted::Copy { response, .. } => response.unwrap(),
                other => panic!("not a copy connection: {:?}", other),
            };
            asker.receive_copy_response(conn.read_message(response).unwrap())
        }
    }
}

#[test]
fn a_new_node_knows_nothing() {
    let n1 = Overlay::new(node(1), vec![node(2), node(3)]);
    assert_eq!(n1.own_id(), node(1));
    assert!(n1.state() == state_of(&[], node(1)));
    assert_eq!(n1.clipboard(), "");
    assert!(n1.connected_peers().is_empty());
    assert!(n1.available_ids().is_empty());
    assert!(!n1.has_seen(&[0; 16]));
    assert!(matches!(n1.get_clipboard(), ClipboardLookup::Local));
    assert_eq!(n1.finish_join(), Err(JoinError::NotConnected));
}

#[test]
fn update_state_keeps_the_later_state() {
    let a = node(1);
    let b = node(2);
    let base = state_of(&[a], a);
    let later = state_of(&[a, b], b);
    let left = state_of(&[a, a], a);

    // Equal, EffectOf and ConcurrentGreater keep the current state.
    let mut s = state_of(&[a], a);
    assert!(update_state(&mut s, state_of(&[a], b)) == base);
    assert!(s == base);
    let mut s = state_of(&[a, b], b);
    assert!(update_state(&mut s, state_of(&[a], a)) == later);
    assert!(s == later);
    let mut s = state_of(&[b], b);
    assert_eq!(s.clock.temporal_relation(&clock_of(&[a])), TemporalRelation::ConcurrentGreater);
    assert!(update_state(&mut s, state_of(&[a], a)) == state_of(&[b], b));

    // Caused and ConcurrentSmaller take the incoming state.
    let mut s = state_of(&[a], a);
    assert!(update_state(&mut s, state_of(&[a, b], b)) == later);
    assert!(s == later);
    let mut s = state_of(&[a], a);
    assert_eq!(s.clock.temporal_relation(&clock_of(&[b])), TemporalRelation::ConcurrentSmaller);
    assert!(update_state(&mut s, state_of(&[b], b)) == state_of(&[b], b));
    assert!(s == state_of(&[b], b));

    // More hosts win the tie-break, whatever the counters.
    let mut s = state_of(&[a, b], b);
    assert_eq!(s.clock.temporal_relation(&left.clock), TemporalRelation::ConcurrentGreater);
    assert!(update_state(&mut s, left.clone()) == later);
    assert!(s == later);
    let mut s = left.clone();
    assert!(update_state(&mut s, later.clone()) == later);
    assert!(s == later);
}

#[test]
fn two_node_copy_propagation() {
    let mut n1 = Overlay::new(node(1), vec![node(2)]);
    let mut n2 = Overlay::new(node(2), vec![]);

    // N1 joins N2's overlay.
    let requests = n1.perform_join();
    assert_eq!(requests.len(), 1);
    for (to, conn, request) in requests {
        assert_eq!(to, node(2));
        assert_eq!((request.ttl, request.hop_count, request.src_id), (8, 0, node(1)));
        let handling = match n2.start_accepting(accept(request).unwrap()) {
            Accepted::Join { handling, .. } => handling,
            other => panic!("not a join connection: {:?}", other),
        };
        match handling {
            JoinHandling::Flood { forwards, response } => {
                assert!(forwards.is_empty());
                let response = conn.read_message(response.unwrap()).unwrap();
                assert!(n1.perform_join_single(&response));
            }
            other => panic!("unexpected handling: {:?}", other),
        }
    }
    assert_eq!(n1.available_ids(), vec![node(2)]);
    let plan = n1.choose_peers().unwrap();
    assert_eq!(plan.len(), 1);
    for (to, _, ping) in plan {
        assert_eq!(to, node(2));
        assert!(matches!(n2.start_accepting(accept(ping).unwrap()), Accepted::Peer { .. }));
        n1.handle_p2p_connection(to);
    }
    assert_eq!(n1.finish_join(), Ok(()));
    assert_eq!(n1.connected_peers(), vec![node(2)]);
    assert_eq!(n2.connected_peers(), vec![node(1)]);

    // N1 copies.
    let notifications = n1.set_clipboard("x");
    assert_eq!(notifications.len(), 1);
    assert_eq!(n1.clipboard(), "x");
    assert!(n1.state() == state_of(&[node(1)], node(1)));
    let forwards = deliver(node(1), notifications, &mut [&mut n2]);
    assert!(forwards.iter().all(|(_, more)| more.is_empty()));

    assert_eq!(n2.state().last_copy_src, n1.own_id());
    assert_eq!(fetch(&mut n2, &mut n1).unwrap(), Some("x".to_string()));
    assert!(matches!(n1.get_clipboard(), ClipboardLookup::Local));
    assert_eq!(fetch(&mut n1, &mut n2).unwrap(), None);
}

#[test]
fn three_node_flood_with_ttl() {
    let mut n1 = Overlay::new(node(1), vec![]);
    let mut n2 = Overlay::new(node(2), vec![node(1)]);
    let mut n3 = Overlay::new(node(3), vec![node(2)]);
    connect(&mut n2, &mut n1);

    let mut requests = n3.perform_join();
    let (to, outgoing, request) = requests.pop().unwrap();
    assert_eq!(to, node(2));
    let id = request.message_id;

    // N2 floods the request on to N1.
    let (incoming_at_2, handling) = match n2.start_accepting(accept(request).unwrap()) {
        Accepted::Join { conn, handling } => (conn, handling),
        other => panic!("not a join connection: {:?}", other),
    };
    let (mut forwards, response_of_2) = match handling {
        JoinHandling::Flood { forwards, response } => (forwards, response.unwrap()),
        other => panic!("unexpected handling: {:?}", other),
    };
    assert_eq!(forwards.len(), 1);
    let (to, downstream, forwarded) = forwards.pop().unwrap();
    assert_eq!(to, node(1));
    assert_eq!(forwarded.message_id, id);
    assert_eq!((forwarded.ttl, forwarded.hop_count, forwarded.src_id), (7, 1, node(3)));

    // N1 forwards to its only peer, N2, and answers.
    let handling = match n1.start_accepting(accept(forwarded).unwrap()) {
        Accepted::Join { handling, .. } => handling,
        other => panic!("not a join connection: {:?}", other),
    };
    let (mut back, response_of_1) = match handling {
        JoinHandling::Flood { forwards, response } => (forwards, response.unwrap()),
        other => panic!("unexpected handling: {:?}", other),
    };
    assert_eq!(back.len(), 1);
    let (to, _, again) = back.pop().unwrap();
    assert_eq!(to, node(2));
    assert_eq!((again.ttl, again.hop_count), (6, 2));
    // N2 has seen the request: it closes at once.
    assert!(matches!(
        n2.start_accepting(accept(again).unwrap()),
        Accepted::Join { handling: JoinHandling::Duplicate, .. }
    ));
    assert!(matches!(&response_of_1.message_type, MessageType::JoinResponse { target } if *target == node(3)));
    assert_eq!(response_of_1.src_id, node(1));

    // N2 routes N1's response back to N3, then sends its own.
    let relayed = match Overlay::relay_join_response(
        &incoming_at_2,
        &downstream.read_message(response_of_1).unwrap(),
    ) {
        Relay::Forward(m) => m,
        other => panic!("unexpected relay: {:?}", other),
    };
    assert_eq!(relayed.src_id, node(1));
    assert!(n3.perform_join_single(&outgoing.read_message(relayed).unwrap()));
    assert!(n3.perform_join_single(&outgoing.read_message(response_of_2).unwrap()));

    assert_eq!(n3.available_ids(), vec![node(1), node(2)]);
    let plan = n3.choose_peers().unwrap();
    let chosen: Vec<Endpoint> = plan.iter().map(|p| p.0).collect();
    assert_eq!(chosen, vec![node(1), node(2)]);
}

#[test]
fn duplicate_suppression() {
    let mut n1 = Overlay::new(node(1), vec![]);
    let mut n2 = Overlay::new(node(2), vec![]);
    connect(&mut n2, &mut n1);
    let request = Message::new([42; 16], MessageType::JoinRequest, node(9), 8, 0);

    assert!(!n1.has_seen(&[42; 16]));
    let first = n1.start_accepting(accept(request.clone()).unwrap());
    assert!(matches!(
        first,
        Accepted::Join { handling: JoinHandling::Flood { ref forwards, .. }, .. } if forwards.len() == 1
    ));
    assert!(n1.has_seen(&[42; 16]));

    let second = n1.start_accepting(accept(request).unwrap());
    assert!(matches!(second, Accepted::Join { handling: JoinHandling::Duplicate, .. }));
    assert!(n1.has_seen(&[42; 16]));
    assert!(!n1.has_seen(&[43; 16]));
}

#[test]
fn a_join_request_out_of_hops_is_only_answered() {
    let mut n1 = Overlay::new(node(1), vec![]);
    let mut n2 = Overlay::new(node(2), vec![]);
    connect(&mut n2, &mut n1);
    for ttl in [0, 1] {
        let mut id = [7; 16];
        id[0] = ttl as u8;
        let request = Message::new(id, MessageType::JoinRequest, node(9), ttl, 7);
        match n1.start_accepting(accept(request).unwrap()) {
            Accepted::Join { handling: JoinHandling::Reply { response }, .. } => {
                let response = response.unwrap();
                assert_eq!(response.message_id, id);
                assert!(matches!(&response.message_type, MessageType::JoinResponse { target } if *target == node(9)));
                assert_eq!((response.src_id, response.ttl, response.hop_count), (node(1), ttl, 7));
            }
            other => panic!("unexpected handling: {:?}", other),
        }
    }
}

#[test]
fn a_join_handled_on_the_wrong_end_sends_nothing() {
    let mut n1 = Overlay::new(node(1), vec![]);
    let (outgoing, request) = JoinConnection::open(&node(9), 1);
    match n1.handle_join_connection(&outgoing, &request) {
        JoinHandling::Reply { response } => {
            assert_eq!(response.unwrap_err(), ConnectionError::NotIncoming)
        }
        other => panic!("unexpected handling: {:?}", other),
    }
    let response = Message::new([1; 16], MessageType::JoinResponse { target: node(9) }, node(1), 1, 0);
    assert!(matches!(Overlay::relay_join_response(&outgoing, &response), Relay::Abort));
    assert!(matches!(Overlay::relay_join_response(&outgoing, &request), Relay::NextPeer));
}

#[test]
fn join_responses_for_others_end_the_reading() {
    let mut n3 = Overlay::new(node(3), vec![node(2)]);
    let meant_for_me = Message::new([1; 16], MessageType::JoinResponse { target: node(3) }, node(1), 7, 1);
    let misrouted = Message::new([1; 16], MessageType::JoinResponse { target: node(4) }, node(2), 7, 1);
    let wrong_type = Message::new([1; 16], MessageType::JoinRequest, node(2), 7, 1);

    assert_eq!(n3.choose_peers().unwrap_err(), JoinError::NoPeers);
    assert!(n3.perform_join_single(&meant_for_me));
    assert!(!n3.perform_join_single(&misrouted));
    assert!(!n3.perform_join_single(&wrong_type));
    assert_eq!(n3.available_ids(), vec![node(1)]);
}

#[test]
fn available_peers_are_sorted_and_deduplicated() {
    let mut n = Overlay::new(node(9), vec![]);
    for last in [5, 2, 5, 7, 2, 2, 1] {
        let m = Message::new([last; 16], MessageType::JoinResponse { target: node(9) }, node(last), 7, 1);
        assert!(n.perform_join_single(&m));
    }
    let plan = n.choose_peers().unwrap();
    let chosen: Vec<Endpoint> = plan.iter().map(|p| p.0).collect();
    assert_eq!(chosen, vec![node(1), node(2), node(5), node(7)]);
    assert_eq!(n.available_ids(), chosen);
    for (_, conn, ping) in plan {
        assert_eq!(conn.dir(), Direction::Outgoing);
        assert!(matches!(&ping.message_type, MessageType::Ping { state } if *state == n.state()));
        assert_eq!((ping.src_id, ping.ttl, ping.hop_count), (node(9), 1, 0));
    }
}

#[test]
fn concurrent_copies() {
    let mut n1 = Overlay::new(node(1), vec![]);
    let mut n2 = Overlay::new(node(2), vec![]);
    connect(&mut n1, &mut n2);

    // Both copy without having exchanged anything.
    let _ = n1.set_clipboard("a");
    let _ = n2.set_clipboard("b");
    assert_eq!(
        n1.state().clock.temporal_relation(&n2.state().clock),
        TemporalRelation::ConcurrentSmaller
    );

    // One round of pings.
    ping(&mut n1, &mut n2);

    assert!(n1.state() == n2.state());
    assert_eq!(n1.state().last_copy_src, node(2));
    assert_eq!(fetch(&mut n1, &mut n2).unwrap(), Some("b".to_string()));
    assert!(matches!(n2.get_clipboard(), ClipboardLookup::Local));
}

#[test]
fn cache_validity() {
    let mut n1 = Overlay::new(node(1), vec![]);
    let mut n2 = Overlay::new(node(2), vec![]);
    connect(&mut n1, &mut n2);
    let notifications = n1.set_clipboard("x");
    deliver(node(1), notifications, &mut [&mut n2]);

    assert!(matches!(n2.get_clipboard(), ClipboardLookup::Remote { holder, .. } if holder == node(1)));
    assert_eq!(fetch(&mut n2, &mut n1).unwrap(), Some("x".to_string()));
    // No state change: the text comes from the cache, no request is made.
    assert!(matches!(n2.get_clipboard(), ClipboardLookup::Cached(ref text) if text == "x"));
    assert!(matches!(n2.get_clipboard(), ClipboardLookup::Cached(ref text) if text == "x"));

    // A new copy makes the cache stale.
    let notifications = n1.set_clipboard("y");
    deliver(node(1), notifications, &mut [&mut n2]);
    assert!(matches!(n2.get_clipboard(), ClipboardLookup::Remote { .. }));
    assert_eq!(fetch(&mut n2, &mut n1).unwrap(), Some("y".to_string()));
}

#[test]
fn serve_copy_error_path() {
    let mut n1 = Overlay::new(node(1), vec![]);
    let mut n2 = Overlay::new(node(2), vec![]);
    let mut n3 = Overlay::new(node(3), vec![]);
    connect(&mut n1, &mut n2);
    connect(&mut n1, &mut n3);

    // N3 has heard of N1's copy only.
    let first = n1.set_clipboard("old");
    deliver(node(1), first, &mut [&mut n2, &mut n3]);
    // N2 copies afterwards, and only N1 hears of it.
    connect(&mut n2, &mut n1);
    let second: Vec<_> = n2.set_clipboard("new").into_iter().filter(|c| c.0 == node(1)).collect();
    deliver(node(2), second, &mut [&mut n1]);
    assert_eq!(n1.state().last_copy_src, node(2));
    assert_eq!(n3.state().last_copy_src, node(1));

    // N3 asks N1, which no longer holds the latest clipboard.
    let (conn, request) = match n3.get_clipboard() {
        ClipboardLookup::Remote { holder, conn, request } => {
            assert_eq!(holder, node(1));
            (conn, request)
        }
        other => panic!("unexpected lookup: {:?}", other),
    };
    let response = match n1.start_accepting(accept(request).unwrap()) {
        Accepted::Copy { response, .. } => response.unwrap(),
        other => panic!("not a copy connection: {:?}", other),
    };
    assert!(matches!(&response.message_type, MessageType::ErrorResponse { state, error }
        if *state == n1.state() && error == "I don't have the latest clipboard"));
    let outcome = n3.receive_copy_response(conn.read_message(response).unwrap());
    assert!(matches!(outcome, Err(ClipboardError::Remote(ref e)) if e == "I don't have the latest clipboard"));
    // The requester's state has moved on to what N1 knew.
    assert!(n3.state() == n1.state());
    assert_eq!(n3.state().last_copy_src, node(2));
}

#[test]
fn an_invalid_reply_to_a_copy_request_is_an_error() {
    let mut n2 = Overlay::new(node(2), vec![]);
    let before = n2.state();
    let reply = Message::new([1; 16], MessageType::JoinRequest, node(1), 1, 0);
    assert!(matches!(n2.receive_copy_response(reply), Err(ClipboardError::InvalidReply)));
    assert!(n2.state() == before);
}

#[test]
fn a_copy_request_on_the_wrong_end_is_refused() {
    let n1 = Overlay::new(node(1), vec![]);
    let (outgoing, _) = CopyConnection::open(&node(2), &"text".to_string());
    assert_eq!(
        n1.handle_copy_connection(&outgoing).unwrap_err(),
        ConnectionError::NotIncoming
    );
}

#[test]
fn copy_notifications_are_flooded_while_the_ttl_lasts() {
    let mut n2 = Overlay::new(node(2), vec![]);
    for last in [1, 3, 4] {
        n2.handle_p2p_connection(node(last));
    }
    n2.handle_p2p_connection(node(3));
    assert_eq!(n2.connected_peers(), vec![node(1), node(3), node(4)]);

    let (conn, _) = P2PConnection::open(&node(1), &n2.state());
    let actor = Peer::new(node(2), node(1));
    let copied = state_of(&[node(1)], node(1));

    let note = Message::new([1; 16], MessageType::CopyNotification { state: copied.clone() }, node(1), 8, 0);
    match actor.receive(&mut n2, &conn, note) {
        PeerReaction::Forward(commands) => {
            let to: Vec<Endpoint> = commands.iter().map(|c| c.0).collect();
            assert_eq!(to, vec![node(3), node(4)]);
            for (_, command) in &commands {
                assert!(matches!(command, P2PSend::ForwardCopyNotification(state, 7, 1) if *state == copied));
            }
            let msg = actor.send(&conn, &commands[0].1);
            assert!(matches!(&msg.message_type, MessageType::CopyNotification { state } if *state == copied));
            assert_eq!((msg.src_id, msg.ttl, msg.hop_count), (node(2), 7, 1));
        }
        other => panic!("unexpected reaction: {:?}", other),
    }
    assert!(n2.state() == copied);

    for ttl in [0, 1] {
        let note = Message::new([2; 16], MessageType::CopyNotification { state: copied.clone() }, node(1), ttl, 7);
        assert!(matches!(actor.receive(&mut n2, &conn, note), PeerReaction::Nothing));
    }
}

#[test]
fn pings_are_answered_with_the_updated_state() {
    let mut n2 = Overlay::new(node(2), vec![]);
    let (conn, _) = P2PConnection::open(&node(1), &n2.state());
    let actor = Peer::new(node(2), node(1));
    let theirs = state_of(&[node(1), node(1)], node(1));

    let ping = conn.ping(&theirs, &node(1));
    match actor.receive(&mut n2, &conn, ping) {
        PeerReaction::Reply(pong) => {
            assert!(matches!(&pong.message_type, MessageType::Pong { state } if *state == theirs));
            assert_eq!((pong.src_id, pong.ttl, pong.hop_count), (node(2), 1, 0));
        }
        other => panic!("unexpected reaction: {:?}", other),
    }
    assert!(n2.state() == theirs);

    let older = state_of(&[node(1)], node(1));
    assert!(matches!(actor.receive(&mut n2, &conn, conn.pong(&older, &node(1))), PeerReaction::Nothing));
    assert!(n2.state() == theirs);

    let stray = Message::new([1; 16], MessageType::TextResponse { text: "x".to_string() }, node(1), 1, 0);
    assert!(matches!(actor.receive(&mut n2, &conn, stray), PeerReaction::Close));
    assert!(n2.state() == theirs);
}

#[test]
fn the_writer_sends_what_it_is_told() {
    let actor = Peer::new(node(2), node(1));
    let (conn, _) = P2PConnection::open(&node(2), &state_of(&[], node(2)));
    let state = state_of(&[node(2)], node(2));

    let ping = actor.send(&conn, &P2PSend::Ping(state.clone()));
    assert!(matches!(&ping.message_type, MessageType::Ping { state: s } if *s == state));
    assert_eq!((ping.src_id, ping.ttl, ping.hop_count), (node(2), 1, 0));

    let note = actor.send(&conn, &P2PSend::CopyNotification(state.clone()));
    assert!(matches!(&note.message_type, MessageType::CopyNotification { state: s } if *s == state));
    assert_eq!((note.src_id, note.ttl, note.hop_count), (node(2), 8, 0));

    let forwarded = actor.send(&conn, &P2PSend::ForwardCopyNotification(state.clone(), 3, 5));
    assert!(matches!(&forwarded.message_type, MessageType::CopyNotification { state: s } if *s == state));
    assert_eq!((forwarded.src_id, forwarded.ttl, forwarded.hop_count), (node(2), 3, 5));
}

#[test]
fn pings_go_to_every_peer_and_failed_peers_are_evicted() {
    let mut n = Overlay::new(node(9), vec![]);
    for last in [1, 2, 3, 4] {
        n.handle_p2p_connection(node(last));
    }
    let _ = n.set_clipboard("x");
    let pings = n.ping_round();
    let to: Vec<Endpoint> = pings.iter().map(|p| p.0).collect();
    assert_eq!(to, vec![node(1), node(2), node(3), node(4)]);
    for (_, command) in &pings {
        assert!(matches!(command, P2PSend::Ping(state) if *state == n.state()));
    }

    n.evict(&vec![node(3), node(1), node(8)]);
    assert_eq!(n.connected_peers(), vec![node(2), node(4)]);
    n.evict(&vec![]);
    assert_eq!(n.connected_peers(), vec![node(2), node(4)]);
    assert_eq!(n.ping_round().len(), 2);
}

#[test]
fn the_first_ping_waits_one_to_five_seconds() {
    let n = Overlay::new(node(9), vec![]);
    let mut seen = Vec::new();
    for _ in 0..200 {
        let schedule = n.start_autoping();
        assert!(schedule.initial_delay_ms >= 1000 && schedule.initial_delay_ms < 5000);
        assert_eq!(schedule.interval_secs, 10);
        seen.push(schedule.initial_delay_ms);
    }
    seen.dedup();
    assert!(seen.len() > 1);
}

#[test]
fn a_copy_counts_for_the_copier_and_notifies_every_peer() {
    let mut n = Overlay::new(node(1), vec![]);
    n.handle_p2p_connection(node(2));
    n.handle_p2p_connection(node(3));
    let first = n.set_clipboard("one");
    assert_eq!(first.len(), 2);
    let second = n.set_clipboard("two");
    let to: Vec<Endpoint> = second.iter().map(|c| c.0).collect();
    assert_eq!(to, vec![node(2), node(3)]);
    let expected = state_of(&[node(1), node(1)], node(1));
    for (_, command) in &second {
        assert!(matches!(command, P2PSend::CopyNotification(state) if *state == expected));
    }
    assert!(n.state() == expected);
    assert_eq!(n.state().clock.get(&node(1)), 2);
    assert_eq!(n.clipboard(), "two");
}

#[test]
fn nodes_that_exchange_states_agree() {
    let a = node(1);
    let b = node(2);
    let c = node(3);
    let states = vec![
        state_of(&[], a),
        state_of(&[a], a),
        state_of(&[b], b),
        state_of(&[a, b], b),
        state_of(&[a, a, b], a),
        state_of(&[a, b, b], b),
        state_of(&[c], c),
        state_of(&[a, c], c),
        state_of(&[a, b, c], c),
    ];
    for x in &states {
        for y in &states {
            let mut mine = x.clone();
            let mut theirs = y.clone();
            let kept_here = update_state(&mut mine, y.clone());
            let kept_there = update_state(&mut theirs, x.clone());
            assert!(kept_here == mine && kept_there == theirs);
            assert!(mine == theirs);
            assert!(mine == *x || mine == *y);
            let again = update_state(&mut mine, y.clone());
            assert!(again == theirs);
        }
    }
}
