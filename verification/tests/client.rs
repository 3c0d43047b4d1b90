use discard::client::{Client, RunAction};
use discard::enums::{MessageType, PcState, RunMessage, SessionType, UserStatus};
use discard::errors::ErrorKind;
use discard::ipc::IPCResponse;
use discard::rtc::{
    retry_after_failure, send_session_outcome, Connection, RetryDecision,
};
use discard::enums::ConnType;
use discard::types::{NodeId, TextMessage};

fn node(byte: u8) -> NodeId {
    NodeId::from_bytes(vec![byte; 32]).unwrap()
}

#[test]
fn local_user_is_row_one() {
    let client = Client::new(node(1));
    assert_eq!(client.db.users.len(), 1);
    assert_eq!(client.db.users[0].user_id, 1);
    assert_eq!(client.db.users[0].display_name, "test");
    assert_eq!(client.db.users[0].node_id, "01".repeat(32));
    assert_eq!(client.db.users[0].status, UserStatus::Online);
    assert_eq!(client.get_node_id().bytes, vec![1u8; 32]);
}

#[test]
fn add_user_then_get_users() {
    // AddUser({N3, "carol"}) then GetUsers lists carol, online, under N3.
    let mut client = Client::new(node(1));
    let out = client.handle_command(RunMessage::Adduser(node(3), "carol".to_string()), 0);
    assert!(out.response.is_none() && out.action.is_none() && !out.stop);
    let out = client.handle_command(RunMessage::GetUsers, 0);
    match out.response.unwrap() {
        IPCResponse::SendUsers(resp) => {
            assert_eq!(resp.users.len(), 2);
            assert_eq!(resp.users[1].display_name, "carol");
            assert_eq!(resp.users[1].node_id, "03".repeat(32));
            assert_eq!(resp.users[1].status, UserStatus::Online);
        }
        other => panic!("wrong response: {:?}", other),
    }
}

#[test]
fn get_user_responses() {
    let mut client = Client::new(node(1));
    client.add_user(node(2), "bob".to_string()).unwrap();
    let out = client.handle_command(RunMessage::GetUser("bob".to_string()), 0);
    match out.response.unwrap() {
        IPCResponse::SendUser(u) => assert_eq!(u.node_id, "02".repeat(32)),
        other => panic!("wrong response: {:?}", other),
    }
    let out = client.handle_command(RunMessage::GetUser("nobody".to_string()), 0);
    match out.response.unwrap() {
        IPCResponse::Error(e) => assert_eq!(e.error, "not found"),
        other => panic!("wrong response: {:?}", other),
    }
}

#[test]
fn update_status_changes_row() {
    let mut client = Client::new(node(1));
    client.add_user(node(2), "bob".to_string()).unwrap();
    let out = client.handle_command(
        RunMessage::UpdateStatus(node(2), UserStatus::Away),
        0,
    );
    assert!(out.response.is_none());
    assert_eq!(client.db.users[1].status, UserStatus::Away);
}

#[test]
fn init_conn_resolves_peer() {
    let mut client = Client::new(node(1));
    client.add_user(node(2), "bob".to_string()).unwrap();
    let out = client.handle_command(
        RunMessage::InitConn(SessionType::Chat, "bob".to_string()),
        0,
    );
    match out.action.unwrap() {
        RunAction::SpawnInitiator(kind, name, node_hex) => {
            assert_eq!(kind, SessionType::Chat);
            assert_eq!(name, "bob");
            assert_eq!(node_hex, "02".repeat(32));
        }
        other => panic!("wrong action: {:?}", other),
    }
}

#[test]
fn init_conn_unknown_peer_is_not_found() {
    let mut client = Client::new(node(1));
    let out = client.handle_command(
        RunMessage::InitConn(SessionType::Chat, "bob".to_string()),
        0,
    );
    match out.response.unwrap() {
        IPCResponse::Error(e) => assert_eq!(e.error, "not found"),
        other => panic!("wrong response: {:?}", other),
    }
    assert!(out.action.is_none());
}

#[test]
fn reserved_session_kinds_not_implemented() {
    let mut client = Client::new(node(1));
    client.add_user(node(2), "bob".to_string()).unwrap();
    for kind in [SessionType::Call, SessionType::Video, SessionType::Idle] {
        let out = client.handle_command(RunMessage::InitConn(kind, "bob".to_string()), 0);
        match out.response.unwrap() {
            IPCResponse::Error(e) => assert_eq!(e.error, "not implemented"),
            other => panic!("wrong response: {:?}", other),
        }
        let out = client.handle_command(RunMessage::RecvConn(kind), 0);
        match out.response.unwrap() {
            IPCResponse::Error(e) => assert_eq!(e.error, "not implemented"),
            other => panic!("wrong response: {:?}", other),
        }
    }
    let out = client.handle_command(RunMessage::RecvConn(SessionType::Chat), 0);
    match out.action.unwrap() {
        RunAction::SpawnResponder(SessionType::Chat) => {}
        other => panic!("wrong action: {:?}", other),
    }
}

#[test]
fn second_connection_for_same_name_rejected() {
    // Two InitConnection commands for one display name: the second is
    // refused with the single-assignment error.
    let mut client = Client::new(node(1));
    client.add_user(node(2), "bob".to_string()).unwrap();
    client
        .insert_connection("bob".to_string(), Connection::new(ConnType::Offerer))
        .unwrap();
    assert_eq!(
        client
            .insert_connection("bob".to_string(), Connection::new(ConnType::Offerer))
            .unwrap_err(),
        ErrorKind::AlreadySet
    );
    let out = client.handle_command(
        RunMessage::InitConn(SessionType::Chat, "bob".to_string()),
        0,
    );
    match out.response.unwrap() {
        IPCResponse::Error(e) => assert_eq!(e.error, "already set"),
        other => panic!("wrong response: {:?}", other),
    }
}

#[test]
fn send_message_persists_with_sent_timestamp() {
    let mut client = Client::new(node(1));
    let out = client.handle_command(
        RunMessage::SendMessage("bob".to_string(), "later".to_string()),
        1500,
    );
    match out.action.unwrap() {
        RunAction::SendFrame(name, content) => {
            assert_eq!(name, "bob");
            assert_eq!(content, "later");
        }
        other => panic!("wrong action: {:?}", other),
    }
    // The command records intent whether or not the peer is reachable.
    assert_eq!(client.db.messages.len(), 1);
    let row = &client.db.messages[0];
    assert_eq!(row.content, "later");
    assert_eq!(row.sender_node_id, "01".repeat(32));
    assert_eq!(row.sent_ts, Some("1970-01-01T00:00:01.500Z".to_string()));
    assert_eq!(row.received_ts, None);
    assert_eq!(row.read_ts, None);
}

#[test]
fn inbound_message_persisted_before_state_change() {
    let mut client = Client::new(node(1));
    let mut conn = Connection::new(ConnType::Answerer);
    conn.note_remote_node_id(node(2));
    client.insert_connection("bob".to_string(), conn).unwrap();

    let removed = client.handle_conn_event(
        &"bob".to_string(),
        MessageType::Message(TextMessage::new("hello".to_string(), 0)),
        2000,
    );
    assert!(!removed);
    assert_eq!(client.db.messages.len(), 1);
    let row = &client.db.messages[0];
    assert_eq!(row.content, "hello");
    assert_eq!(row.sender_node_id, "02".repeat(32));
    assert_eq!(row.received_ts, Some("1970-01-01T00:00:02.000Z".to_string()));
    assert_eq!(row.sent_ts, None);

    // The later state transition finds the message already persisted.
    let removed = client.handle_conn_event(
        &"bob".to_string(),
        MessageType::ConnectionState(PcState::Connected),
        2001,
    );
    assert!(!removed);
    assert_eq!(client.db.messages.len(), 1);
    assert_eq!(client.connections.len(), 1);
}

#[test]
fn terminal_state_drops_record() {
    let mut client = Client::new(node(1));
    client
        .insert_connection("alice".to_string(), Connection::new(ConnType::Answerer))
        .unwrap();
    let removed = client.handle_conn_event(
        &"alice".to_string(),
        MessageType::ConnectionState(PcState::Failed),
        0,
    );
    assert!(removed);
    assert!(client.connections.is_empty());
}

#[test]
fn test_runtime() {
    // Shutdown stops the loop and drops every record.
    let mut client = Client::new(node(1));
    client
        .insert_connection("bob".to_string(), Connection::new(ConnType::Offerer))
        .unwrap();
    let out = client.handle_command(RunMessage::Shutdown, 0);
    assert!(out.stop);
    assert!(client.connections.is_empty());
}

#[test]
fn retry_policy_zero_budget() {
    // offer with a zero transmit budget: a failed first attempt is final.
    assert_eq!(
        send_session_outcome(&vec![false, true, true], 0, 2).unwrap_err(),
        ErrorKind::Timeout
    );
    // ... while a first success still goes through.
    assert_eq!(send_session_outcome(&vec![true], 0, 2).unwrap(), 0);
    assert_eq!(retry_after_failure(0, 0), RetryDecision::GiveUp);
}

#[test]
fn retry_policy_flat_delay() {
    // Attempts sleep two seconds apart against a sixty-second budget.
    assert_eq!(send_session_outcome(&vec![false, false, true], 60, 2).unwrap(), 2);
    // Attempt 30 would start at the budget's edge and is not made.
    let mut attempts = vec![false; 31];
    attempts[30] = true;
    assert_eq!(
        send_session_outcome(&attempts, 60, 2).unwrap_err(),
        ErrorKind::Timeout
    );
    assert_eq!(retry_after_failure(58, 60), RetryDecision::Retry);
    assert_eq!(retry_after_failure(60, 60), RetryDecision::GiveUp);
}

#[test]
fn sent_timestamps_never_step_back() {
    // Authored timestamps are monotone even when the host clock regresses.
    let mut client = Client::new(node(1));
    client.handle_command(
        RunMessage::SendMessage("bob".to_string(), "first".to_string()),
        5_000,
    );
    client.handle_command(
        RunMessage::SendMessage("bob".to_string(), "second".to_string()),
        3_000,
    );
    assert_eq!(
        client.db.messages[0].sent_ts,
        Some("1970-01-01T00:00:05.000Z".to_string())
    );
    assert_eq!(
        client.db.messages[1].sent_ts,
        Some("1970-01-01T00:00:05.000Z".to_string()),
        "the regressed clock reading is held at the last recorded time"
    );
}
