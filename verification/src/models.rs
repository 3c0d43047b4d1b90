use vstd::prelude::*;

use crate::enums::UserStatus;

verus! {

/// One row of the `users` table.  `node_id` holds the canonical hex form of
/// the user's identity; `display_name` is unique per store.
#[derive(Debug)]
pub struct User {
    pub user_id: i32,
    pub display_name: String,
    pub node_id: String,
    pub status: UserStatus,
}

impl User {
    /// An identical copy of this row.
    pub fn duplicate(&self) -> (r: User)
        ensures
            r == *self,
    {
        User {
            user_id: self.user_id,
            display_name: self.display_name.clone(),
            node_id: self.node_id.clone(),
            status: self.status,
        }
    }
}

/// One row of the `messages` table.  Timestamps are ISO-8601 strings; each
/// is set at most once, and a missing one is `None`.
#[derive(Debug)]
pub struct Message {
    pub message_id: i32,
    pub content: String,
    pub sender_node_id: String,
    pub received_ts: Option<String>,
    pub sent_ts: Option<String>,
    pub read_ts: Option<String>,
}

/// Copies an optional timestamp string.
pub fn copy_opt_string(o: &Option<String>) -> (r: Option<String>)
    ensures
        r == *o,
{
    match o {
        Some(s) => Some(s.clone()),
        None => None,
    }
}

impl Message {
    /// An identical copy of this row.
    pub fn duplicate(&self) -> (r: Message)
        ensures
            r == *self,
    {
        Message {
            message_id: self.message_id,
            content: self.content.clone(),
            sender_node_id: self.sender_node_id.clone(),
            received_ts: copy_opt_string(&self.received_ts),
            sent_ts: copy_opt_string(&self.sent_ts),
            read_ts: copy_opt_string(&self.read_ts),
        }
    }
}

/// Renders a row as column/value pairs for a parameterized SQL insert; the
/// durable mirror outside this crate binds them.
pub trait ToSqlStatement {
    fn to_sql(&self) -> Vec<(&'static str, String)>;

    fn table_name() -> &'static str;
}

impl ToSqlStatement for User {
    fn to_sql(&self) -> Vec<(&'static str, String)> {
        let mut out: Vec<(&'static str, String)> = Vec::new();
        out.push(("display_name", self.display_name.clone()));
        out.push(("node_id", self.node_id.clone()));
        out.push(("status", self.status.status_str()));
        out
    }

    fn table_name() -> &'static str {
        "users"
    }
}

impl ToSqlStatement for Message {
    fn to_sql(&self) -> Vec<(&'static str, String)> {
        let mut out: Vec<(&'static str, String)> = Vec::new();
        out.push(("content", self.content.clone()));
        out.push(("sender_node_id", self.sender_node_id.clone()));
        out.push(("received_ts", opt_ts(&self.received_ts)));
        out.push(("sent_ts", opt_ts(&self.sent_ts)));
        out.push(("read_ts", opt_ts(&self.read_ts)));
        out
    }

    fn table_name() -> &'static str {
        "messages"
    }
}

/// An absent timestamp binds as the empty string.
fn opt_ts(o: &Option<String>) -> (r: String)
    ensures
        match o {
            Some(s) => r@ == s@,
            None => r@ == Seq::<char>::empty(),
        },
{
    match o {
        Some(s) => s.clone(),
        None => String::new(),
    }
}

/// No two rows share a display name and no two rows share a node id.
pub open spec fn users_distinct(users: Seq<User>) -> bool {
    forall|i: int, j: int|
        0 <= i < j < users.len() ==> users[i].display_name@ != users[j].display_name@
            && users[i].node_id@ != users[j].node_id@
}

/// Row ids are assigned in insertion order, starting at one.
pub open spec fn user_ids_sequential(users: Seq<User>) -> bool {
    forall|i: int| 0 <= i < users.len() ==> (#[trigger] users[i].user_id) == i + 1
}

pub open spec fn message_ids_sequential(msgs: Seq<Message>) -> bool {
    forall|i: int| 0 <= i < msgs.len() ==> (#[trigger] msgs[i].message_id) == i + 1
}

/// Some row carries this display name.
pub open spec fn has_name(users: Seq<User>, name: Seq<char>) -> bool {
    exists|i: int| 0 <= i < users.len() && (#[trigger] users[i].display_name@) == name
}

/// Some row carries this node id.
pub open spec fn has_node(users: Seq<User>, node: Seq<char>) -> bool {
    exists|i: int| 0 <= i < users.len() && (#[trigger] users[i].node_id@) == node
}

/// Some row carries both this display name and this node id.
pub open spec fn has_pair(users: Seq<User>, name: Seq<char>, node: Seq<char>) -> bool {
    exists|i: int|
        0 <= i < users.len() && (#[trigger] users[i].display_name@) == name && users[i].node_id@
            == node
}

/// The number of rows carrying this node id.
pub open spec fn count_node(users: Seq<User>, node: Seq<char>) -> int
    decreases users.len(),
{
    if users.len() == 0 {
        0
    } else {
        count_node(users.drop_last(), node) + if users.last().node_id@ == node {
            1int
        } else {
            0int
        }
    }
}

proof fn lemma_count_node_bounds(users: Seq<User>, node: Seq<char>)
    ensures
        0 <= count_node(users, node) <= users.len(),
    decreases users.len(),
{
    if users.len() > 0 {
        lemma_count_node_bounds(users.drop_last(), node);
    }
}

proof fn lemma_count_node_distinct(users: Seq<User>, node: Seq<char>)
    requires
        users_distinct(users),
    ensures
        count_node(users, node) <= 1,
        has_node(users, node) ==> count_node(users, node) == 1,
    decreases users.len(),
{
    if users.len() == 0 {
    } else {
        let prefix = users.drop_last();
        assert(users_distinct(prefix)) by {
            assert(forall|i: int, j: int|
                0 <= i < j < prefix.len() ==> prefix[i] == users[i] && prefix[j] == users[j]);
        }
        lemma_count_node_distinct(prefix, node);
        lemma_count_node_bounds(prefix, node);
        if users.last().node_id@ == node {
            // No earlier row can share the last row's node id.
            assert(!has_node(prefix, node)) by {
                if has_node(prefix, node) {
                    let i = choose|i: int|
                        0 <= i < prefix.len() && (#[trigger] prefix[i].node_id@) == node;
                    assert(users[i].node_id@ == users[users.len() - 1].node_id@);
                    assert(false);
                }
            }
            assert(count_node(prefix, node) == 0) by {
                lemma_count_node_zero(prefix, node);
            }
        } else {
            if has_node(users, node) {
                let i = choose|i: int|
                    0 <= i < users.len() && (#[trigger] users[i].node_id@) == node;
                assert(i < users.len() - 1);
                assert(prefix[i].node_id@ == node);
                assert(has_node(prefix, node));
            }
        }
    }
}

proof fn lemma_count_node_zero(users: Seq<User>, node: Seq<char>)
    requires
        !has_node(users, node),
    ensures
        count_node(users, node) == 0,
    decreases users.len(),
{
    if users.len() > 0 {
        let prefix = users.drop_last();
        assert(!has_node(prefix, node)) by {
            if has_node(prefix, node) {
                let i = choose|i: int|
                    0 <= i < prefix.len() && (#[trigger] prefix[i].node_id@) == node;
                assert(users[i].node_id@ == node);
            }
        }
        lemma_count_node_zero(prefix, node);
        assert(users.last().node_id@ != node) by {
            if users.last().node_id@ == node {
                assert(users[users.len() - 1].node_id@ == node);
            }
        }
    }
}

/// In a distinct user table a node id names at most one row, and exactly one
/// row once it has been added.
pub proof fn lemma_node_id_unique(users: Seq<User>, node: Seq<char>)
    requires
        users_distinct(users),
    ensures
        count_node(users, node) <= 1,
        has_node(users, node) ==> count_node(users, node) == 1,
{
    lemma_count_node_distinct(users, node);
}

/// In a distinct user table every row with a given display name carries the
/// same node id as any row pairing that name with a node id.
pub proof fn lemma_name_determines_node(users: Seq<User>, name: Seq<char>, node: Seq<char>)
    requires
        users_distinct(users),
        has_pair(users, name, node),
    ensures
        forall|i: int|
            0 <= i < users.len() && (#[trigger] users[i].display_name@) == name ==> users[i].node_id@
                == node,
{
    let w = choose|w: int|
        0 <= w < users.len() && (#[trigger] users[w].display_name@) == name && users[w].node_id@
            == node;
    assert forall|i: int|
        0 <= i < users.len() && (#[trigger] users[i].display_name@) == name implies users[i].node_id@
        == node by {
        if i != w {
            assert(users[i].display_name@ == users[w].display_name@);
            assert(false);
        }
    }
}

} // verus!
