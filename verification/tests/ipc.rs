use discard::enums::{RunMessage, UserStatus};
use discard::ipc::{
    parse_request, serialize_request, serialize_response, to_run_message, AddUserMsg,
    IPCErrorType, IPCMessage, IPCResponse, SendMessageMsg, SendUsersResp, UpdateStatusMsg,
};
use discard::models::User;
use discard::types::NodeId;

fn node(byte: u8) -> NodeId {
    NodeId::from_bytes(vec![byte; 32]).unwrap()
}

fn round_trip(m: IPCMessage) -> String {
    let text = serialize_request(&m);
    let back = parse_request(&text).expect("canonical rendering must parse");
    assert_eq!(serialize_request(&back), text);
    text
}

#[test]
fn test_ipc_add_user() {
    let text = round_trip(IPCMessage::AddUser(AddUserMsg {
        node_id: node(0xAB),
        display_name: "carol".to_string(),
    }));
    let hex = "ab".repeat(32);
    assert_eq!(
        text,
        format!(
            "{{\"type\":\"AddUser\",\"data\":{{\"nodeId\":\"{}\",\"displayName\":\"carol\"}}}}",
            hex
        )
    );
    match parse_request(&text).unwrap() {
        IPCMessage::AddUser(msg) => {
            assert_eq!(msg.node_id.bytes, vec![0xAB; 32]);
            assert_eq!(msg.display_name, "carol");
        }
        other => panic!("wrong variant: {:?}", other),
    }
}

#[test]
fn test_ipc_update_status() {
    let text = round_trip(IPCMessage::UpdateStatus(UpdateStatusMsg {
        node_id: node(1),
        user_status: UserStatus::Away,
    }));
    let hex = "01".repeat(32);
    assert_eq!(
        text,
        format!(
            "{{\"type\":\"UpdateStatus\",\"data\":{{\"nodeId\":\"{}\",\"userStatus\":\"Away\"}}}}",
            hex
        )
    );
}

#[test]
fn test_ipc_send_message() {
    let text = round_trip(IPCMessage::SendMessage(SendMessageMsg {
        display_name: "bob".to_string(),
        content: "hello".to_string(),
    }));
    assert_eq!(
        text,
        "{\"type\":\"SendMessage\",\"data\":{\"nodeId\":\"bob\",\"content\":\"hello\"}}"
    );
}

#[test]
fn test_ipc_bare_requests() {
    assert_eq!(round_trip(IPCMessage::GetUsers), "{\"type\":\"GetUsers\"}");
    assert_eq!(round_trip(IPCMessage::GetNodeId), "{\"type\":\"GetNodeId\"}");
    assert_eq!(round_trip(IPCMessage::Shutdown), "{\"type\":\"Shutdown\"}");
}

#[test]
fn escaping_round_trips() {
    let nasty = "a\"b\\c\nd\re\tf".to_string();
    let m = IPCMessage::SendMessage(SendMessageMsg {
        display_name: nasty.clone(),
        content: "x".to_string(),
    });
    let text = serialize_request(&m);
    assert!(text.contains("a\\\"b\\\\c\\nd\\re\\tf"));
    match parse_request(&text).unwrap() {
        IPCMessage::SendMessage(msg) => assert_eq!(msg.display_name, nasty),
        other => panic!("wrong variant: {:?}", other),
    }
}

#[test]
fn malformed_requests_rejected() {
    assert!(parse_request("").is_none());
    assert!(parse_request("{\"type\":\"Unknown\"}").is_none());
    assert!(parse_request("{\"type\":\"GetUsers\"} ").is_none());
    assert!(parse_request("{\"type\":\"AddUser\",\"data\":{\"nodeId\":\"xyz\",\"displayName\":\"a\"}}").is_none());
    // A node id of the wrong length is refused.
    assert!(parse_request(
        "{\"type\":\"AddUser\",\"data\":{\"nodeId\":\"abcd\",\"displayName\":\"a\"}}"
    )
    .is_none());
    // An unterminated string is refused.
    assert!(parse_request("{\"type\":\"GetUsers").is_none());
}

#[test]
fn test_ipc() {
    // A request maps onto the supervisor's command set.
    let m = IPCMessage::SendMessage(SendMessageMsg {
        display_name: "bob".to_string(),
        content: "Test".to_string(),
    });
    match to_run_message(m).unwrap() {
        RunMessage::SendMessage(name, content) => {
            assert_eq!(name, "bob");
            assert_eq!(content, "Test");
        }
        other => panic!("wrong command: {:?}", other),
    }
    assert!(to_run_message(IPCMessage::GetNodeId).is_none());
}

#[test]
fn response_rendering() {
    let users = vec![
        User {
            user_id: 1,
            display_name: "test".to_string(),
            node_id: "00".repeat(32),
            status: UserStatus::Online,
        },
        User {
            user_id: 2,
            display_name: "bob".to_string(),
            node_id: "02".repeat(32),
            status: UserStatus::Offline,
        },
    ];
    let text = serialize_response(&IPCResponse::SendUsers(SendUsersResp { users }));
    let expected = format!(
        "{{\"type\":\"SendUsers\",\"data\":{{\"users\":[{{\"user_id\":1,\"display_name\":\"test\",\"node_id\":\"{}\",\"status\":\"Online\"}},{{\"user_id\":2,\"display_name\":\"bob\",\"node_id\":\"{}\",\"status\":\"Offline\"}}]}}}}",
        "00".repeat(32),
        "02".repeat(32)
    );
    assert_eq!(text, expected);

    let text = serialize_response(&IPCResponse::Error(IPCErrorType {
        error: "not found".to_string(),
    }));
    assert_eq!(
        text,
        "{\"type\":\"Error\",\"data\":{\"errorMessage\":\"not found\"}}"
    );

    let text = serialize_response(&IPCResponse::SendUser(User {
        user_id: 10,
        display_name: "d".to_string(),
        node_id: "ff".to_string(),
        status: UserStatus::Away,
    }));
    assert_eq!(
        text,
        "{\"type\":\"SendUser\",\"data\":{\"user_id\":10,\"display_name\":\"d\",\"node_id\":\"ff\",\"status\":\"Away\"}}"
    );
}
