use discard::db::{bootstrap_action, BootstrapAction, Database};
use discard::enums::UserStatus;
use discard::errors::ErrorKind;
use discard::models::{Message, ToSqlStatement, User};

fn user(name: &str, node: &str) -> User {
    User {
        user_id: 0,
        display_name: name.to_string(),
        node_id: node.to_string(),
        status: UserStatus::Online,
    }
}

#[test]
fn test_db_basic() {
    let mut db = Database::new();

    let serialized_id = "aa".repeat(32);
    db.write_user(user("test", &serialized_id)).expect("Failed to write user");

    let message = Message {
        message_id: 0,
        content: "test".to_string(),
        sender_node_id: serialized_id.clone(),
        read_ts: None,
        sent_ts: None,
        received_ts: None,
    };
    db.write_message(message).expect("Failed to write message");

    let users = db.get_users();
    assert_eq!(users.len(), 1);
    assert_eq!(users[0].user_id, 1);
    assert_eq!(users[0].display_name, "test");
    assert_eq!(users[0].node_id, serialized_id);
    assert_eq!(users[0].status, UserStatus::Online);

    let messages = db.read_messages(&serialized_id);
    assert_eq!(messages.len(), 1);
    assert_eq!(messages[0].message_id, 1);
    assert_eq!(messages[0].content, "test");

    db.update_status(&serialized_id, UserStatus::Offline).expect("Error updating status");
    assert_eq!(db.get_users()[0].status, UserStatus::Offline);

    db.update_status(&serialized_id, UserStatus::Online).expect("Error updating status");
    assert_eq!(db.get_users()[0].status, UserStatus::Online);

    db.hard_reset();
    assert!(db.get_users().is_empty());
    assert!(db.read_messages(&serialized_id).is_empty());
}

#[test]
fn write_then_lookup_returns_node_id() {
    // Store law: after write_user(u), get_user_node_id(u.display_name)
    // yields u.node_id.
    let mut db = Database::new();
    let node = "cd".repeat(32);
    db.write_user(user("bob", &node)).unwrap();
    assert_eq!(db.get_user_node_id(&"bob".to_string()).unwrap(), node);
    assert_eq!(db.get_display_name(&node).unwrap(), "bob");
}

#[test]
fn duplicate_pair_is_idempotent() {
    let mut db = Database::new();
    let node = "ab".repeat(32);
    db.write_user(user("bob", &node)).unwrap();
    db.write_user(user("bob", &node)).unwrap();
    assert_eq!(db.get_users().len(), 1, "exactly one row per node id");
}

#[test]
fn colliding_rows_are_refused() {
    let mut db = Database::new();
    db.write_user(user("bob", &"ab".repeat(32))).unwrap();
    // Same display name, different node id.
    assert_eq!(
        db.write_user(user("bob", &"cd".repeat(32))).unwrap_err(),
        ErrorKind::StoreError
    );
    // Same node id, different display name.
    assert_eq!(
        db.write_user(user("carol", &"ab".repeat(32))).unwrap_err(),
        ErrorKind::StoreError
    );
    assert_eq!(db.get_users().len(), 1);
}

#[test]
fn unknown_rows_not_found() {
    let mut db = Database::new();
    assert_eq!(
        db.get_user_node_id(&"nobody".to_string()).unwrap_err(),
        ErrorKind::NotFound
    );
    assert_eq!(
        db.get_display_name(&"00".repeat(32)).unwrap_err(),
        ErrorKind::NotFound
    );
    assert_eq!(
        db.update_status(&"00".repeat(32), UserStatus::Away).unwrap_err(),
        ErrorKind::NotFound
    );
}

#[test]
fn node_ids_skip_local_row() {
    let mut db = Database::new();
    db.write_user(user("test", &"00".repeat(32))).unwrap();
    db.write_user(user("bob", &"01".repeat(32))).unwrap();
    db.write_user(user("carol", &"02".repeat(32))).unwrap();
    let ids = db.get_node_ids();
    assert_eq!(ids, vec!["01".repeat(32), "02".repeat(32)]);
}

#[test]
fn read_messages_filters_by_sender() {
    let mut db = Database::new();
    for (sender, content) in [("aa", "one"), ("bb", "two"), ("aa", "three")] {
        db.write_message(Message {
            message_id: 0,
            content: content.to_string(),
            sender_node_id: sender.repeat(32),
            received_ts: None,
            sent_ts: None,
            read_ts: None,
        })
        .unwrap();
    }
    let from_a = db.read_messages(&"aa".repeat(32));
    assert_eq!(from_a.len(), 2);
    assert_eq!(from_a[0].content, "one");
    assert_eq!(from_a[1].content, "three");
}

#[test]
fn bootstrap_runs_script_until_marked() {
    assert_eq!(bootstrap_action(&None), BootstrapAction::RunInitScript);
    assert_eq!(
        bootstrap_action(&Some("false".to_string())),
        BootstrapAction::RunInitScript
    );
    assert_eq!(
        bootstrap_action(&Some("true".to_string())),
        BootstrapAction::Skip
    );
}

#[test]
fn rows_render_for_sql() {
    let u = user("bob", "ab");
    assert_eq!(
        u.to_sql(),
        vec![
            ("display_name", "bob".to_string()),
            ("node_id", "ab".to_string()),
            ("status", "online".to_string()),
        ]
    );
    assert_eq!(<User as ToSqlStatement>::table_name(), "users");
    assert_eq!(<Message as ToSqlStatement>::table_name(), "messages");
}
