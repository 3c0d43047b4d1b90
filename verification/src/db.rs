use vstd::prelude::*;

use crate::enums::UserStatus;
use crate::errors::ErrorKind;
use crate::models::has_name;
use crate::models::has_node;
use crate::models::has_pair;
use crate::models::message_ids_sequential;
use crate::models::user_ids_sequential;
use crate::models::users_distinct;
use crate::models::Message;
use crate::models::User;
use crate::strutil::str_eq;

verus! {

/// Whether a fresh start must run the schema initialization script.
#[derive(Clone, Copy, Debug, PartialEq, Eq, Structural)]
pub enum BootstrapAction {
    RunInitScript,
    Skip,
}

/// Decides schema bootstrap from the `_meta` table's `initialized` value:
/// only a recorded `"true"` skips the initialization script.
pub fn bootstrap_action(meta_initialized: &Option<String>) -> (r: BootstrapAction)
    ensures
        r == BootstrapAction::Skip <==> (meta_initialized matches Some(s) && s@ == "true"@),
        r == BootstrapAction::Skip || r == BootstrapAction::RunInitScript,
{
    match meta_initialized {
        Some(s) => {
            if str_eq(s.as_str(), "true") {
                BootstrapAction::Skip
            } else {
                BootstrapAction::RunInitScript
            }
        },
        None => BootstrapAction::RunInitScript,
    }
}

/// The messages a given sender authored, in store order.
pub open spec fn msgs_from(msgs: Seq<Message>, sender: Seq<char>) -> Seq<Message>
    decreases msgs.len(),
{
    if msgs.len() == 0 {
        Seq::<Message>::empty()
    } else {
        let prefix = msgs_from(msgs.drop_last(), sender);
        if msgs.last().sender_node_id@ == sender {
            prefix.push(msgs.last())
        } else {
            prefix
        }
    }
}

/// Largest number of rows a table can hold: row ids are 32-bit signed.
pub const MAX_TABLE_ROWS: usize = 0x7ffffffe;

/// The user and message tables of one endpoint's store.
///
/// This type is the relational model the rest of the core is verified
/// against; the durable file that mirrors it lives outside the crate.
#[derive(Debug)]
pub struct Database {
    pub users: Vec<User>,
    pub messages: Vec<Message>,
}

impl Database {
    /// Row ids are positions (one-based), and display names and node ids
    /// are unique.
    pub open spec fn wf(&self) -> bool {
        &&& users_distinct(self.users@)
        &&& user_ids_sequential(self.users@)
        &&& message_ids_sequential(self.messages@)
        &&& self.users@.len() <= MAX_TABLE_ROWS
        &&& self.messages@.len() <= MAX_TABLE_ROWS
    }

    /// A fresh, empty store.
    pub fn new() -> (r: Database)
        ensures
            r.wf(),
            r.users@.len() == 0,
            r.messages@.len() == 0,
    {
        Database { users: Vec::new(), messages: Vec::new() }
    }

    /// Inserts a user row.  Re-inserting an existing (display name, node id)
    /// pair succeeds and changes nothing; a row that collides with an
    /// existing display name or node id otherwise is refused; a genuinely
    /// new user is appended under the next row id.
    pub fn write_user(&mut self, user: User) -> (r: Result<(), ErrorKind>)
        requires
            old(self).wf(),
        ensures
            final(self).wf(),
            final(self).messages@ == old(self).messages@,
            r matches Ok(()) <==> (has_pair(old(self).users@, user.display_name@, user.node_id@)
                || (!has_name(old(self).users@, user.display_name@) && !has_node(
                old(self).users@,
                user.node_id@,
            ) && old(self).users@.len() < MAX_TABLE_ROWS)),
            has_pair(old(self).users@, user.display_name@, user.node_id@) ==> final(self).users@
                == old(self).users@,
            (!has_name(old(self).users@, user.display_name@) && !has_node(
                old(self).users@,
                user.node_id@,
            ) && old(self).users@.len() < MAX_TABLE_ROWS) ==> final(self).users@ == old(
                self,
            ).users@.push(
                (User {
                    user_id: (old(self).users@.len() + 1) as i32,
                    display_name: user.display_name,
                    node_id: user.node_id,
                    status: user.status,
                }),
            ),
            r matches Err(e) ==> e == ErrorKind::StoreError && final(self).users@ == old(
                self,
            ).users@,
            r is Ok ==> has_pair(final(self).users@, user.display_name@, user.node_id@),
    {
        let ghost users0 = self.users@;
        let mut i: usize = 0;
        while i < self.users.len()
            invariant
                0 <= i <= self.users@.len(),
                *self == *old(self),
                self.users@ == users0,
                old(self).wf(),
                forall|k: int|
                    0 <= k < i ==> (#[trigger] users0[k].display_name@) != user.display_name@,
                forall|k: int| 0 <= k < i ==> (#[trigger] users0[k].node_id@) != user.node_id@,
            decreases self.users@.len() - i,
        {
            let row = &self.users[i];
            let name_match = row.display_name == user.display_name;
            let node_match = row.node_id == user.node_id;
            if name_match && node_match {
                proof {
                    assert(has_pair(users0, user.display_name@, user.node_id@));
                }
                return Ok(());
            }
            if name_match || node_match {
                proof {
                    if name_match {
                        assert(has_name(users0, user.display_name@));
                    } else {
                        assert(has_node(users0, user.node_id@));
                    }
                    assert(!has_pair(users0, user.display_name@, user.node_id@)) by {
                        if has_pair(users0, user.display_name@, user.node_id@) {
                            let p = choose|p: int|
                                0 <= p < users0.len() && (#[trigger] users0[p].display_name@)
                                    == user.display_name@ && users0[p].node_id@ == user.node_id@;
                            if p < i as int {
                                assert(users0[p].display_name@ != user.display_name@);
                            } else if p == i as int {
                                assert(name_match && node_match);
                            } else {
                                if name_match {
                                    assert(users0[i as int].display_name@
                                        == users0[p].display_name@);
                                } else {
                                    assert(users0[i as int].node_id@ == users0[p].node_id@);
                                }
                            }
                            assert(false);
                        }
                    }
                }
                return Err(ErrorKind::StoreError);
            }
            i = i + 1;
        }
        proof {
            assert(!has_name(users0, user.display_name@)) by {
                if has_name(users0, user.display_name@) {
                    let p = choose|p: int|
                        0 <= p < users0.len() && (#[trigger] users0[p].display_name@)
                            == user.display_name@;
                    assert(false);
                }
            }
            assert(!has_node(users0, user.node_id@)) by {
                if has_node(users0, user.node_id@) {
                    let p = choose|p: int|
                        0 <= p < users0.len() && (#[trigger] users0[p].node_id@)
                            == user.node_id@;
                    assert(false);
                }
            }
        }
        if self.users.len() >= MAX_TABLE_ROWS {
            return Err(ErrorKind::StoreError);
        }
        let assigned: i32 = (self.users.len() + 1) as i32;
        let row = User {
            user_id: assigned,
            display_name: user.display_name,
            node_id: user.node_id,
            status: user.status,
        };
        self.users.push(row);
        proof {
            let usersn = self.users@;
            assert(usersn.len() == users0.len() + 1);
            assert(forall|k: int| 0 <= k < users0.len() ==> usersn[k] == users0[k]);
            assert(users_distinct(usersn)) by {
                assert forall|a: int, b: int| 0 <= a < b < usersn.len() implies usersn[a].display_name@
                    != usersn[b].display_name@ && usersn[a].node_id@ != usersn[b].node_id@ by {
                    if b < users0.len() {
                        assert(users0[a].display_name@ != users0[b].display_name@);
                    } else {
                        assert(usersn[b].display_name@ == user.display_name@);
                        assert(users0[a].display_name@ != user.display_name@);
                        assert(users0[a].node_id@ != user.node_id@);
                    }
                }
            }
            assert(user_ids_sequential(usersn)) by {
                assert(forall|k: int|
                    0 <= k < users0.len() ==> (#[trigger] usersn[k].user_id)
                        == users0[k].user_id);
                assert(usersn[users0.len() as int].user_id == users0.len() + 1);
            }
            assert(has_pair(usersn, user.display_name@, user.node_id@)) by {
                assert(usersn[users0.len() as int].display_name@ == user.display_name@);
            }
        }
        Ok(())
    }

    /// Appends a message row under the next row id; the given row's other
    /// fields are stored unchanged.
    pub fn write_message(&mut self, message: Message) -> (r: Result<(), ErrorKind>)
        requires
            old(self).wf(),
        ensures
            final(self).wf(),
            final(self).users@ == old(self).users@,
            r is Ok <==> old(self).messages@.len() < MAX_TABLE_ROWS,
            r matches Err(e) ==> e == ErrorKind::StoreError && final(self).messages@ == old(
                self,
            ).messages@,
            r is Ok ==> final(self).messages@ == old(self).messages@.push(
                (Message {
                    message_id: (old(self).messages@.len() + 1) as i32,
                    content: message.content,
                    sender_node_id: message.sender_node_id,
                    received_ts: message.received_ts,
                    sent_ts: message.sent_ts,
                    read_ts: message.read_ts,
                }),
            ),
    {
        if self.messages.len() >= MAX_TABLE_ROWS {
            return Err(ErrorKind::StoreError);
        }
        let ghost msgs0 = self.messages@;
        let assigned: i32 = (self.messages.len() + 1) as i32;
        let row = Message {
            message_id: assigned,
            content: message.content,
            sender_node_id: message.sender_node_id,
            received_ts: message.received_ts,
            sent_ts: message.sent_ts,
            read_ts: message.read_ts,
        };
        self.messages.push(row);
        proof {
            assert(message_ids_sequential(self.messages@)) by {
                assert(forall|k: int| 0 <= k < msgs0.len() ==> self.messages@[k] == msgs0[k]);
            }
        }
        Ok(())
    }

    /// Sets the status of the row holding this node id; `NotFound` when no
    /// row does.  Nothing else about any row changes.
    pub fn update_status(&mut self, node_id: &String, user_status: UserStatus) -> (r: Result<
        (),
        ErrorKind,
    >)
        requires
            old(self).wf(),
        ensures
            final(self).wf(),
            final(self).messages@ == old(self).messages@,
            r is Ok <==> has_node(old(self).users@, node_id@),
            r matches Err(e) ==> e == ErrorKind::NotFound && final(self).users@ == old(
                self,
            ).users@,
            final(self).users@.len() == old(self).users@.len(),
            forall|k: int|
                0 <= k < old(self).users@.len() && (#[trigger] old(self).users@[k].node_id@)
                    != node_id@ ==> final(self).users@[k] == old(self).users@[k],
            forall|k: int|
                0 <= k < old(self).users@.len() && (#[trigger] old(self).users@[k].node_id@)
                    == node_id@ ==> final(self).users@[k].user_id == old(self).users@[k].user_id
                    && final(self).users@[k].display_name == old(self).users@[k].display_name
                    && final(self).users@[k].node_id == old(self).users@[k].node_id
                    && final(self).users@[k].status == user_status,
    {
        let ghost users0 = self.users@;
        let mut out: Vec<User> = Vec::new();
        let mut found: bool = false;
        let mut i: usize = 0;
        while i < self.users.len()
            invariant
                0 <= i <= self.users@.len(),
                self.users@ == users0,
                out@.len() == i,
                found <==> exists|k: int|
                    0 <= k < i && (#[trigger] users0[k].node_id@) == node_id@,
                forall|k: int|
                    0 <= k < i && (#[trigger] users0[k].node_id@) != node_id@ ==> out@[k]
                        == users0[k],
                forall|k: int|
                    0 <= k < i && (#[trigger] users0[k].node_id@) == node_id@ ==> out@[k].user_id
                        == users0[k].user_id && out@[k].display_name == users0[k].display_name
                        && out@[k].node_id == users0[k].node_id && out@[k].status == user_status,
            decreases self.users@.len() - i,
        {
            let row = &self.users[i];
            if row.node_id == *node_id {
                let updated = User {
                    user_id: row.user_id,
                    display_name: row.display_name.clone(),
                    node_id: row.node_id.clone(),
                    status: user_status,
                };
                out.push(updated);
                found = true;
            } else {
                out.push(row.duplicate());
            }
            i = i + 1;
        }
        self.users = out;
        proof {
            let usersn = self.users@;
            assert forall|k: int| 0 <= k < users0.len() implies (#[trigger] usersn[k]).user_id
                == users0[k].user_id && usersn[k].display_name == users0[k].display_name
                && usersn[k].node_id == users0[k].node_id by {
                if users0[k].node_id@ == node_id@ {
                } else {
                    assert(usersn[k] == users0[k]);
                }
            }
            assert(users_distinct(usersn)) by {
                assert forall|a: int, b: int| 0 <= a < b < usersn.len() implies usersn[a].display_name@
                    != usersn[b].display_name@ && usersn[a].node_id@ != usersn[b].node_id@ by {
                    assert(usersn[a].display_name == users0[a].display_name);
                    assert(usersn[b].display_name == users0[b].display_name);
                    assert(usersn[a].node_id == users0[a].node_id);
                    assert(usersn[b].node_id == users0[b].node_id);
                }
            }
            assert(user_ids_sequential(usersn)) by {
                assert forall|k: int| 0 <= k < usersn.len() implies (#[trigger] usersn[k].user_id)
                    == k + 1 by {
                    assert(usersn[k].user_id == users0[k].user_id);
                }
            }
            if !found {
                assert forall|k: int| 0 <= k < users0.len() implies usersn[k] == users0[k] by {
                    assert(users0[k].node_id@ != node_id@);
                }
                assert(usersn =~= users0);
            }
        }
        if found {
            Ok(())
        } else {
            Err(ErrorKind::NotFound)
        }
    }

    /// The node ids of every peer the store knows, local row excluded.
    pub fn get_node_ids(&self) -> (r: Vec<String>)
        ensures
            self.users@.len() == 0 ==> r@.len() == 0,
            self.users@.len() > 0 ==> r@.len() == self.users@.len() - 1 && (forall|k: int|
                0 <= k < r@.len() ==> (#[trigger] r@[k]) == self.users@[k + 1].node_id),
    {
        let mut out: Vec<String> = Vec::new();
        if self.users.len() == 0 {
            return out;
        }
        let mut i: usize = 1;
        while i < self.users.len()
            invariant
                1 <= i <= self.users@.len(),
                out@.len() == i - 1,
                forall|k: int| 0 <= k < out@.len() ==> (#[trigger] out@[k]) == self.users@[k
                    + 1].node_id,
            decreases self.users@.len() - i,
        {
            out.push(self.users[i].node_id.clone());
            i = i + 1;
        }
        out
    }

    /// The node id recorded under a display name; `NotFound` when the name
    /// is unknown.
    pub fn get_user_node_id(&self, display_name: &String) -> (r: Result<String, ErrorKind>)
        ensures
            r is Ok <==> has_name(self.users@, display_name@),
            r matches Ok(node) ==> exists|i: int|
                0 <= i < self.users@.len() && (#[trigger] self.users@[i].display_name@)
                    == display_name@ && node@ == self.users@[i].node_id@,
            r matches Err(e) ==> e == ErrorKind::NotFound,
    {
        let mut i: usize = 0;
        while i < self.users.len()
            invariant
                0 <= i <= self.users@.len(),
                forall|k: int|
                    0 <= k < i ==> (#[trigger] self.users@[k].display_name@) != display_name@,
            decreases self.users@.len() - i,
        {
            let row = &self.users[i];
            if row.display_name == *display_name {
                return Ok(row.node_id.clone());
            }
            i = i + 1;
        }
        Err(ErrorKind::NotFound)
    }

    /// The display name recorded under a node id; `NotFound` when the node
    /// id is unknown.
    pub fn get_display_name(&self, node_id: &String) -> (r: Result<String, ErrorKind>)
        ensures
            r is Ok <==> has_node(self.users@, node_id@),
            r matches Ok(name) ==> exists|i: int|
                0 <= i < self.users@.len() && (#[trigger] self.users@[i].node_id@) == node_id@
                    && name@ == self.users@[i].display_name@,
            r matches Err(e) ==> e == ErrorKind::NotFound,
    {
        let mut i: usize = 0;
        while i < self.users.len()
            invariant
                0 <= i <= self.users@.len(),
                forall|k: int| 0 <= k < i ==> (#[trigger] self.users@[k].node_id@) != node_id@,
            decreases self.users@.len() - i,
        {
            let row = &self.users[i];
            if row.node_id == *node_id {
                return Ok(row.display_name.clone());
            }
            i = i + 1;
        }
        Err(ErrorKind::NotFound)
    }

    /// A copy of every user row, in store order.
    pub fn get_users(&self) -> (r: Vec<User>)
        ensures
            r@ == self.users@,
    {
        let mut out: Vec<User> = Vec::new();
        let mut i: usize = 0;
        while i < self.users.len()
            invariant
                0 <= i <= self.users@.len(),
                out@ == self.users@.take(i as int),
            decreases self.users@.len() - i,
        {
            out.push(self.users[i].duplicate());
            proof {
                assert(out@ =~= self.users@.take(i + 1));
            }
            i = i + 1;
        }
        proof {
            assert(self.users@.take(self.users@.len() as int) =~= self.users@);
        }
        out
    }

    /// A copy of every message a given sender authored, in store order.
    pub fn read_messages(&self, sender_node_id: &String) -> (r: Vec<Message>)
        ensures
            r@ == msgs_from(self.messages@, sender_node_id@),
    {
        let mut out: Vec<Message> = Vec::new();
        let mut i: usize = 0;
        while i < self.messages.len()
            invariant
                0 <= i <= self.messages@.len(),
                out@ == msgs_from(self.messages@.take(i as int), sender_node_id@),
            decreases self.messages@.len() - i,
        {
            let row = &self.messages[i];
            proof {
                assert(self.messages@.take(i + 1).drop_last() =~= self.messages@.take(i as int));
                assert(self.messages@.take(i + 1).last() == self.messages@[i as int]);
            }
            if row.sender_node_id == *sender_node_id {
                out.push(row.duplicate());
            }
            i = i + 1;
        }
        proof {
            assert(self.messages@.take(self.messages@.len() as int) =~= self.messages@);
        }
        out
    }

    /// Store round trip: once a user write has put a (display name, node
    /// id) pair in a distinct table — which [`Database::write_user`]
    /// guarantees on success — looking the display name up yields exactly
    /// the node id that was written, as [`Database::get_user_node_id`]'s
    /// contract then pins its `Ok` value to that row.
    pub proof fn lemma_write_user_then_lookup(
        users: Seq<User>,
        name: Seq<char>,
        node: Seq<char>,
    )
        requires
            users_distinct(users),
            has_pair(users, name, node),
        ensures
            has_name(users, name),
            forall|i: int|
                0 <= i < users.len() && (#[trigger] users[i].display_name@) == name
                    ==> users[i].node_id@ == node,
    {
        crate::models::lemma_name_determines_node(users, name, node);
        let w = choose|w: int|
            0 <= w < users.len() && (#[trigger] users[w].display_name@) == name
                && users[w].node_id@ == node;
        assert(has_name(users, name));
    }

    /// Drops both tables.
    pub fn hard_reset(&mut self)
        ensures
            final(self).wf(),
            final(self).users@.len() == 0,
            final(self).messages@.len() == 0,
    {
        self.users = Vec::new();
        self.messages = Vec::new();
    }
}

} // verus!
