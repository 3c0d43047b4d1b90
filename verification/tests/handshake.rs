use discard::client::{Client, RunAction};
use discard::codec::{decode_session, encode_session, Session};
use discard::enums::{ConnType, MessageType, PcState, RunMessage, SessionType};
use discard::rtc::Connection;
use discard::types::{NodeId, TextMessage};

fn node(byte: u8) -> NodeId {
    NodeId::from_bytes(vec![byte; 32]).unwrap()
}

/// Carries one session payload across the wire in its binary encoding.
fn wire(session: Session) -> Session {
    let bytes = encode_session(&session).expect("payload fits the wire");
    decode_session(&bytes).expect("wire bytes decode")
}

/// The chat handshake and a text round trip, driven through the verified
/// state machines: two supervisors with pre-seeded stores, an initiator and
/// a responder exchanging offer, answer and trickled candidates.
#[test]
fn test_data_channel() {
    let n1 = node(1);
    let n2 = node(2);

    // Two endpoints, each seeded with the other under a display name.
    let mut p1 = Client::new(n1.duplicate());
    let mut p2 = Client::new(n2.duplicate());
    p1.add_user(n2.duplicate(), "bob".to_string()).unwrap();
    p2.add_user(n1.duplicate(), "alice".to_string()).unwrap();

    // P2 is told to expect a connection; P1 is told to initiate one.
    let out = p2.handle_command(RunMessage::RecvConn(SessionType::Chat), 0);
    match out.action.unwrap() {
        RunAction::SpawnResponder(SessionType::Chat) => {}
        other => panic!("wrong action: {:?}", other),
    }
    let out = p1.handle_command(
        RunMessage::InitConn(SessionType::Chat, "bob".to_string()),
        0,
    );
    let (kind, peer_name, peer_hex) = match out.action.unwrap() {
        RunAction::SpawnInitiator(k, d, n) => (k, d, n),
        other => panic!("wrong action: {:?}", other),
    };
    assert_eq!(kind, SessionType::Chat);
    assert_eq!(peer_hex, "02".repeat(32));

    // Initiator sequence.
    let mut offerer = Connection::new(ConnType::Offerer);
    offerer.set_remote_node_id(n2.duplicate()).unwrap();
    offerer.create_data_channel();
    let offer_session = offerer.offer(b"offer-sdp".to_vec()).unwrap();

    // Responder sequence: the first inbound stream carries the peer's
    // authenticated identity, then its session payload.
    let mut answerer = Connection::new(ConnType::Answerer);
    answerer.register_data_channel();
    answerer.note_remote_node_id(n1.duplicate());
    let inbound = wire(offer_session);
    answerer.apply_remote_session(&inbound);
    let answer_session = answerer.answer(b"answer-sdp".to_vec()).unwrap();
    let inbound = wire(answer_session);
    offerer.apply_remote_session(&inbound);

    // Trickled candidates ride with a snapshot of the local description.
    let trickle = offerer
        .on_local_ice_candidate(b"cand-1".to_vec())
        .expect("identity is set, so the candidate is transmitted");
    let trickle_wire = wire(trickle);
    answerer.apply_remote_session(&trickle_wire);
    let back = answerer
        .on_local_ice_candidate(b"cand-2".to_vec())
        .expect("identity is known from the first inbound stream");
    offerer.apply_remote_session(&wire(back));

    // Re-applying the same offer and candidate is a no-op on the
    // description and only lengthens the candidate list.
    let before = answerer.remote_description.clone();
    answerer.apply_remote_session(&trickle_wire);
    assert_eq!(answerer.remote_description, before);

    // Both data channels open; both monitors report Connected.
    offerer.on_data_channel_open();
    answerer.on_data_channel_open();
    assert!(!offerer.on_state_change(PcState::Connected));
    assert!(!answerer.on_state_change(PcState::Connected));
    assert!(offerer.is_connected());
    assert!(answerer.is_connected());
    assert!(offerer.wait_for_data_channel());
    assert!(answerer.wait_for_data_channel());

    // Each supervisor caches its record under the peer's display name.
    p1.insert_connection(peer_name, offerer).unwrap();
    let alice = p2.get_display_name("01".repeat(32)).unwrap();
    p2.insert_connection(alice, answerer).unwrap();

    // Text message round trip: P1 sends, P2 persists on arrival.
    let out = p1.handle_command(
        RunMessage::SendMessage("bob".to_string(), "hello".to_string()),
        5_000,
    );
    let (frame_peer, frame_text) = match out.action.unwrap() {
        RunAction::SendFrame(d, c) => (d, c),
        other => panic!("wrong action: {:?}", other),
    };
    let idx = p1.find_connection(&frame_peer).unwrap();
    let frame = p1.connections[idx].1.send_dc_message(frame_text).unwrap();

    p2.handle_conn_event(
        &"alice".to_string(),
        MessageType::Message(TextMessage::new(frame, 5_000)),
        6_000,
    );

    // P2 holds the message with the sender's identity and an arrival time.
    assert_eq!(p2.db.messages.len(), 1);
    let row = &p2.db.messages[0];
    assert_eq!(row.content, "hello");
    assert_eq!(row.sender_node_id, "01".repeat(32));
    assert!(row.received_ts.is_some());
    assert!(row.sent_ts.is_none());

    // P1 holds its own copy with the authoring time.
    assert_eq!(p1.db.messages.len(), 1);
    let row = &p1.db.messages[0];
    assert_eq!(row.content, "hello");
    assert_eq!(row.sender_node_id, "01".repeat(32));
    assert!(row.sent_ts.is_some());
}

#[test]
fn test_node_id_exchange() {
    // The responder learns the initiator's identity from the first inbound
    // stream, and only implicitly: an explicit set still wins.
    let n1 = node(7);
    let mut conn = Connection::new(ConnType::Answerer);
    assert!(conn.get_remote_node_id().is_none());
    conn.note_remote_node_id(n1.duplicate());
    let got = conn.get_remote_node_id().expect("identity was conveyed");
    assert_eq!(got.fmt_short(), n1.fmt_short(), "Node ids do not match");

    // The slot is single-assignment from then on.
    let err = conn.set_remote_node_id(node(8)).unwrap_err();
    assert_eq!(err, discard::errors::ErrorKind::AlreadySet);
    assert_eq!(
        conn.get_remote_node_id().unwrap().bytes,
        vec![7u8; 32]
    );
}

#[test]
fn ice_candidates_wait_for_identity() {
    // A driver transmits no candidate before its remote identity is set.
    let mut conn = Connection::new(ConnType::Offerer);
    assert!(conn.on_local_ice_candidate(b"early".to_vec()).is_none());
    assert_eq!(conn.candidates.len(), 1, "the candidate is still recorded");
    conn.set_remote_node_id(node(9)).unwrap();
    let session = conn.on_local_ice_candidate(b"late".to_vec()).unwrap();
    assert_eq!(session.ice_candidate, Some(b"late".to_vec()));
    assert_eq!(session.sdp, None, "no local description yet");
}

#[test]
fn offer_requires_identity() {
    let mut conn = Connection::new(ConnType::Offerer);
    conn.create_data_channel();
    assert_eq!(
        conn.offer(b"sdp".to_vec()).unwrap_err(),
        discard::errors::ErrorKind::NoRemote
    );
    conn.set_remote_node_id(node(3)).unwrap();
    let session = conn.offer(b"sdp".to_vec()).unwrap();
    assert_eq!(session.sdp, Some(b"sdp".to_vec()));
    assert_eq!(session.ice_candidate, None);
    assert_eq!(conn.local_description, Some(b"sdp".to_vec()));
}

#[test]
fn send_before_channel_is_no_channel() {
    let conn = Connection::new(ConnType::Offerer);
    assert_eq!(
        conn.send_dc_message("hi".to_string()).unwrap_err(),
        discard::errors::ErrorKind::NoChannel
    );
}
