use vstd::prelude::*;

use crate::db::Database;
use crate::db::MAX_TABLE_ROWS;
use crate::enums::MessageType;
use crate::enums::RunMessage;
use crate::enums::SessionType;
use crate::enums::UserStatus;
use crate::errors::spec_error_message;
use crate::errors::ErrorKind;
use crate::ipc::IPCErrorType;
use crate::ipc::IPCResponse;
use crate::ipc::SendUsersResp;
use crate::models::has_name;
use crate::models::has_node;
use crate::models::has_pair;
use crate::models::Message;
use crate::models::User;
use crate::rtc::Connection;
use crate::timefmt::iso_of;
use crate::timefmt::iso_timestamp;
use crate::timefmt::MAX_TIMESTAMP_MS;
use crate::types::hex_of;
use crate::types::NodeId;
use crate::types::TextMessage;

verus! {

/// No two connection records share a display name.
pub open spec fn conn_keys_distinct(conns: Seq<(String, Connection)>) -> bool {
    forall|i: int, j: int|
        0 <= i < j < conns.len() ==> (#[trigger] conns[i].0@) != (#[trigger] conns[j].0@)
}

/// Every held driver satisfies its own invariant.
pub open spec fn conns_wf(conns: Seq<(String, Connection)>) -> bool {
    forall|i: int| 0 <= i < conns.len() ==> (#[trigger] conns[i].1).wf()
}

/// Some record is keyed by this display name.
pub open spec fn has_conn(conns: Seq<(String, Connection)>, name: Seq<char>) -> bool {
    exists|i: int| 0 <= i < conns.len() && (#[trigger] conns[i].0@) == name
}

/// The number of records keyed by this display name.
pub open spec fn count_conn(conns: Seq<(String, Connection)>, name: Seq<char>) -> int
    decreases conns.len(),
{
    if conns.len() == 0 {
        0
    } else {
        count_conn(conns.drop_last(), name) + if conns.last().0@ == name {
            1int
        } else {
            0int
        }
    }
}

/// The table gained exactly one user row, with these fields, under the next
/// row id.
pub open spec fn spec_user_appended(
    users0: Seq<User>,
    users1: Seq<User>,
    name: Seq<char>,
    node: Seq<char>,
    status: UserStatus,
) -> bool {
    &&& users1.len() == users0.len() + 1
    &&& (forall|k: int| 0 <= k < users0.len() ==> (#[trigger] users1[k]) == users0[k])
    &&& users1.last().user_id == users0.len() + 1
    &&& users1.last().display_name@ == name
    &&& users1.last().node_id@ == node
    &&& users1.last().status == status
}

/// What one user insertion does to the table: an existing (name, node) pair
/// changes nothing, a genuinely new user is appended, and a collision or a
/// full table changes nothing.
pub open spec fn spec_write_user_effect(
    users0: Seq<User>,
    users1: Seq<User>,
    name: Seq<char>,
    node: Seq<char>,
    status: UserStatus,
) -> bool {
    if has_pair(users0, name, node) {
        users1 == users0
    } else if !has_name(users0, name) && !has_node(users0, node) && users0.len()
        < MAX_TABLE_ROWS {
        spec_user_appended(users0, users1, name, node, status)
    } else {
        users1 == users0
    }
}

/// The view of an optional timestamp string.
pub open spec fn opt_str_view(o: Option<String>) -> Option<Seq<char>> {
    match o {
        Some(s) => Some(s@),
        None => None,
    }
}

/// The table gained exactly one message row, with these fields, under the
/// next row id and with no read timestamp.
pub open spec fn spec_message_appended(
    msgs0: Seq<Message>,
    msgs1: Seq<Message>,
    content: Seq<char>,
    sender: Seq<char>,
    received: Option<Seq<char>>,
    sent: Option<Seq<char>>,
) -> bool {
    &&& msgs1.len() == msgs0.len() + 1
    &&& (forall|k: int| 0 <= k < msgs0.len() ==> (#[trigger] msgs1[k]) == msgs0[k])
    &&& msgs1.last().message_id == msgs0.len() + 1
    &&& msgs1.last().content@ == content
    &&& msgs1.last().sender_node_id@ == sender
    &&& opt_str_view(msgs1.last().received_ts) == received
    &&& opt_str_view(msgs1.last().sent_ts) == sent
    &&& msgs1.last().read_ts is None
}

/// The timestamp recorded for a newly authored message: the clock's
/// reading, held at the last recorded value when the clock steps back, so
/// that authored timestamps never decrease.
pub open spec fn monotone_ts(now: u64, last: u64) -> u64 {
    if now > last {
        now
    } else {
        last
    }
}

/// Timestamps in a log never decrease.
pub open spec fn sent_log_sorted(log: Seq<u64>) -> bool {
    forall|i: int, j: int| 0 <= i < j < log.len() ==> log[i] <= log[j]
}

/// Some message row carries this content from this sender.
pub open spec fn has_message(msgs: Seq<Message>, content: Seq<char>, sender: Seq<char>) -> bool {
    exists|k: int|
        0 <= k < msgs.len() && (#[trigger] msgs[k].content@) == content && msgs[k].sender_node_id@
            == sender
}

/// The connection supervisor: the single owner of the connection records,
/// the store and the local identity.  The command loop and the per-
/// connection fan-in both act through it.
pub struct Client {
    pub connections: Vec<(String, Connection)>,
    pub db: Database,
    pub node_id: NodeId,
    /// Largest timestamp recorded on a message this endpoint authored.
    pub last_sent_ms: u64,
    /// Every authored-message timestamp recorded, in recording order.
    pub sent_log: Ghost<Seq<u64>>,
}

impl Client {
    pub open spec fn wf(&self) -> bool {
        &&& self.db.wf()
        &&& self.node_id.wf()
        &&& conn_keys_distinct(self.connections@)
        &&& conns_wf(self.connections@)
        &&& self.last_sent_ms <= MAX_TIMESTAMP_MS
        &&& sent_log_sorted(self.sent_log@)
        &&& (self.sent_log@.len() > 0 ==> self.sent_log@.last() <= self.last_sent_ms)
    }

    /// A fresh supervisor for one endpoint identity.  The local user is row
    /// one, under the placeholder display name the store is seeded with.
    pub fn new(node_id: NodeId) -> (r: Client)
        requires
            node_id.wf(),
        ensures
            r.wf(),
            r.connections@.len() == 0,
            r.node_id == node_id,
            r.db.messages@.len() == 0,
            r.db.users@.len() == 1,
            r.db.users@[0].user_id == 1,
            r.db.users@[0].display_name@ == "test"@,
            r.db.users@[0].node_id@ == hex_of(node_id.bytes@),
            r.db.users@[0].status == UserStatus::Online,
            r.last_sent_ms == 0,
            r.sent_log@.len() == 0,
    {
        let mut db = Database::new();
        let local = User {
            user_id: 1,
            display_name: "test".to_owned(),
            node_id: node_id.to_hex(),
            status: UserStatus::Online,
        };
        let outcome = db.write_user(local);
        proof {
            assert(outcome is Ok);
        }
        Client {
            connections: Vec::new(),
            db,
            node_id,
            last_sent_ms: 0,
            sent_log: Ghost(Seq::empty()),
        }
    }

    /// A copy of this endpoint's identity.
    pub fn get_node_id(&self) -> (r: NodeId)
        ensures
            r.bytes@ == self.node_id.bytes@,
    {
        self.node_id.duplicate()
    }

    /// Upserts a user row for a peer, initially online.
    pub fn add_user(&mut self, node_id: NodeId, display_name: String) -> (r: Result<
        (),
        ErrorKind,
    >)
        requires
            old(self).wf(),
            node_id.wf(),
        ensures
            final(self).wf(),
            final(self).connections == old(self).connections,
            final(self).node_id == old(self).node_id,
            final(self).db.messages@ == old(self).db.messages@,
            spec_write_user_effect(
                old(self).db.users@,
                final(self).db.users@,
                display_name@,
                hex_of(node_id.bytes@),
                UserStatus::Online,
            ),
            r is Ok <==> (has_pair(old(self).db.users@, display_name@, hex_of(node_id.bytes@))
                || (!has_name(old(self).db.users@, display_name@) && !has_node(
                old(self).db.users@,
                hex_of(node_id.bytes@),
            ) && old(self).db.users@.len() < MAX_TABLE_ROWS)),
            r matches Err(e) ==> e == ErrorKind::StoreError,
            final(self).last_sent_ms == old(self).last_sent_ms,
            final(self).sent_log == old(self).sent_log,
    {
        let user = User {
            user_id: 0,
            display_name,
            node_id: node_id.to_hex(),
            status: UserStatus::Online,
        };
        self.db.write_user(user)
    }

    /// Sets a peer's status; `NotFound` when the store has no row for it.
    pub fn update_status(&mut self, node_id: NodeId, status: UserStatus) -> (r: Result<
        (),
        ErrorKind,
    >)
        requires
            old(self).wf(),
        ensures
            final(self).wf(),
            final(self).connections == old(self).connections,
            final(self).node_id == old(self).node_id,
            final(self).db.messages@ == old(self).db.messages@,
            r is Ok <==> has_node(old(self).db.users@, hex_of(node_id.bytes@)),
            r matches Err(e) ==> e == ErrorKind::NotFound && final(self).db.users@ == old(
                self,
            ).db.users@,
            final(self).db.users@.len() == old(self).db.users@.len(),
            forall|k: int|
                0 <= k < old(self).db.users@.len() && (#[trigger] old(self).db.users@[k].node_id@)
                    != hex_of(node_id.bytes@) ==> final(self).db.users@[k] == old(
                    self,
                ).db.users@[k],
            forall|k: int|
                0 <= k < old(self).db.users@.len() && (#[trigger] old(self).db.users@[k].node_id@)
                    == hex_of(node_id.bytes@) ==> final(self).db.users@[k].status == status
                    && final(self).db.users@[k].display_name == old(self).db.users@[k].display_name
                    && final(self).db.users@[k].node_id == old(self).db.users@[k].node_id
                    && final(self).db.users@[k].user_id == old(self).db.users@[k].user_id,
            final(self).last_sent_ms == old(self).last_sent_ms,
            final(self).sent_log == old(self).sent_log,
    {
        let hex = node_id.to_hex();
        self.db.update_status(&hex, status)
    }

    /// The stored node id (canonical hex) under a display name.
    pub fn get_user_node_id(&self, display_name: &String) -> (r: Result<String, ErrorKind>)
        ensures
            r is Ok <==> has_name(self.db.users@, display_name@),
            r matches Ok(node) ==> exists|i: int|
                0 <= i < self.db.users@.len() && (#[trigger] self.db.users@[i].display_name@)
                    == display_name@ && node@ == self.db.users@[i].node_id@,
            r matches Err(e) ==> e == ErrorKind::NotFound,
    {
        self.db.get_user_node_id(display_name)
    }

    /// The display name under a stored node id.
    pub fn get_display_name(&self, node_id: String) -> (r: Result<String, ErrorKind>)
        ensures
            r is Ok <==> has_node(self.db.users@, node_id@),
            r matches Ok(name) ==> exists|i: int|
                0 <= i < self.db.users@.len() && (#[trigger] self.db.users@[i].node_id@)
                    == node_id@ && name@ == self.db.users@[i].display_name@,
            r matches Err(e) ==> e == ErrorKind::NotFound,
    {
        self.db.get_display_name(&node_id)
    }

    /// A copy of every user row.
    pub fn get_users(&self) -> (r: Vec<User>)
        ensures
            r@ == self.db.users@,
    {
        self.db.get_users()
    }

    /// A copy of every message a peer authored.
    pub fn read_messages(&self, node_id: &NodeId) -> (r: Vec<Message>)
        ensures
            r@ == crate::db::msgs_from(self.db.messages@, hex_of(node_id.bytes@)),
    {
        let hex = node_id.to_hex();
        self.db.read_messages(&hex)
    }

    /// Persists a message this endpoint authored: the sender is the local
    /// identity, and the author-side timestamp — held back to the last
    /// recorded one if the clock stepped backwards — becomes `sent_ts`.
    pub fn store_message(&mut self, message: TextMessage) -> (r: Result<(), ErrorKind>)
        requires
            old(self).wf(),
            message.timestamp <= MAX_TIMESTAMP_MS,
        ensures
            final(self).wf(),
            final(self).connections == old(self).connections,
            final(self).node_id == old(self).node_id,
            final(self).db.users@ == old(self).db.users@,
            r is Ok <==> old(self).db.messages@.len() < MAX_TABLE_ROWS,
            r is Ok ==> spec_message_appended(
                old(self).db.messages@,
                final(self).db.messages@,
                message.content@,
                hex_of(old(self).node_id.bytes@),
                None,
                Some(iso_of(monotone_ts(message.timestamp, old(self).last_sent_ms))),
            ),
            r is Ok ==> final(self).last_sent_ms == monotone_ts(
                message.timestamp,
                old(self).last_sent_ms,
            ) && final(self).sent_log@ == old(self).sent_log@.push(final(self).last_sent_ms),
            r matches Err(e) ==> e == ErrorKind::StoreError && final(self).db.messages@ == old(
                self,
            ).db.messages@ && final(self).last_sent_ms == old(self).last_sent_ms
                && final(self).sent_log == old(self).sent_log,
    {
        let ts: u64 = if message.timestamp > self.last_sent_ms {
            message.timestamp
        } else {
            self.last_sent_ms
        };
        let row = Message {
            message_id: 0,
            content: message.content,
            sender_node_id: self.node_id.to_hex(),
            received_ts: None,
            sent_ts: Some(iso_timestamp(ts)),
            read_ts: None,
        };
        let outcome = self.db.write_message(row);
        if outcome.is_ok() {
            self.last_sent_ms = ts;
            proof {
                self.sent_log@ = self.sent_log@.push(ts);
                assert(sent_log_sorted(self.sent_log@)) by {
                    let log = self.sent_log@;
                    let prev = old(self).sent_log@;
                    assert(forall|k: int| 0 <= k < prev.len() ==> log[k] == prev[k]);
                    assert forall|i: int, j: int| 0 <= i < j < log.len() implies log[i]
                        <= log[j] by {
                        if j < prev.len() {
                            assert(prev[i] <= prev[j]);
                        } else {
                            if i < prev.len() {
                                assert(log[i] == prev[i]);
                                if prev.len() > 0 {
                                    assert(prev[i] <= prev.last());
                                }
                            }
                        }
                    }
                }
            }
        }
        outcome
    }

    /// Persists a message that arrived from the wire: the sender is the
    /// remote identity and the arrival time is recorded as `received_ts`.
    pub fn store_inbound_message(
        &mut self,
        sender: &NodeId,
        message: TextMessage,
        now_ms: u64,
    ) -> (r: Result<(), ErrorKind>)
        requires
            old(self).wf(),
            now_ms <= MAX_TIMESTAMP_MS,
        ensures
            final(self).wf(),
            final(self).connections == old(self).connections,
            final(self).node_id == old(self).node_id,
            final(self).db.users@ == old(self).db.users@,
            r is Ok <==> old(self).db.messages@.len() < MAX_TABLE_ROWS,
            r is Ok ==> spec_message_appended(
                old(self).db.messages@,
                final(self).db.messages@,
                message.content@,
                hex_of(sender.bytes@),
                Some(iso_of(now_ms)),
                None,
            ),
            r matches Err(e) ==> e == ErrorKind::StoreError && final(self).db.messages@ == old(
                self,
            ).db.messages@,
            final(self).last_sent_ms == old(self).last_sent_ms,
            final(self).sent_log == old(self).sent_log,
    {
        let row = Message {
            message_id: 0,
            content: message.content,
            sender_node_id: sender.to_hex(),
            received_ts: Some(iso_timestamp(now_ms)),
            sent_ts: None,
            read_ts: None,
        };
        self.db.write_message(row)
    }

    /// Persists an outbound message and reports success: delivery is best
    /// effort, and the user's intent is recorded whether or not the peer
    /// was reachable.
    pub fn send_message(&mut self, message: TextMessage) -> (r: Result<(), ErrorKind>)
        requires
            old(self).wf(),
            message.timestamp <= MAX_TIMESTAMP_MS,
        ensures
            final(self).wf(),
            final(self).connections == old(self).connections,
            final(self).node_id == old(self).node_id,
            final(self).db.users@ == old(self).db.users@,
            r is Ok <==> old(self).db.messages@.len() < MAX_TABLE_ROWS,
            r is Ok ==> spec_message_appended(
                old(self).db.messages@,
                final(self).db.messages@,
                message.content@,
                hex_of(old(self).node_id.bytes@),
                None,
                Some(iso_of(monotone_ts(message.timestamp, old(self).last_sent_ms))),
            ),
            r is Ok ==> final(self).last_sent_ms == monotone_ts(
                message.timestamp,
                old(self).last_sent_ms,
            ) && final(self).sent_log@ == old(self).sent_log@.push(final(self).last_sent_ms),
            r matches Err(e) ==> e == ErrorKind::StoreError && final(self).db.messages@ == old(
                self,
            ).db.messages@,
    {
        self.store_message(message)
    }

    /// The position of the record keyed by this display name, if any.
    pub fn find_connection(&self, display_name: &String) -> (r: Option<usize>)
        requires
            self.wf(),
        ensures
            r is Some <==> has_conn(self.connections@, display_name@),
            r matches Some(w) ==> w < self.connections@.len() && self.connections@[
                w as int
            ].0@ == display_name@,
    {
        let mut i: usize = 0;
        while i < self.connections.len()
            invariant
                0 <= i <= self.connections@.len(),
                forall|k: int| 0 <= k < i ==> (#[trigger] self.connections@[k].0@)
                    != display_name@,
            decreases self.connections@.len() - i,
        {
            if self.connections[i].0 == *display_name {
                return Some(i);
            }
            i = i + 1;
        }
        proof {
            if has_conn(self.connections@, display_name@) {
                let w = choose|w: int|
                    0 <= w < self.connections@.len() && (#[trigger] self.connections@[w].0@)
                        == display_name@;
                assert(false);
            }
        }
        None
    }

    /// Caches a connection record under its peer's display name.  A second
    /// record for the same name is refused with `AlreadySet`.
    pub fn insert_connection(&mut self, display_name: String, conn: Connection) -> (r: Result<
        (),
        ErrorKind,
    >)
        requires
            old(self).wf(),
            conn.wf(),
        ensures
            final(self).wf(),
            final(self).db == old(self).db,
            final(self).node_id == old(self).node_id,
            has_conn(old(self).connections@, display_name@) ==> (r matches Err(e) && e
                == ErrorKind::AlreadySet && final(self).connections@ == old(self).connections@),
            !has_conn(old(self).connections@, display_name@) ==> (r is Ok
                && final(self).connections@ == old(self).connections@.push(
                (display_name, conn),
            )),
            final(self).last_sent_ms == old(self).last_sent_ms,
            final(self).sent_log == old(self).sent_log,
    {
        let present = self.find_connection(&display_name).is_some();
        if present {
            return Err(ErrorKind::AlreadySet);
        }
        let ghost conns0 = self.connections@;
        self.connections.push((display_name, conn));
        proof {
            let conns1 = self.connections@;
            assert(forall|k: int| 0 <= k < conns0.len() ==> conns1[k] == conns0[k]);
            assert(conn_keys_distinct(conns1)) by {
                assert forall|a: int, b: int| 0 <= a < b < conns1.len() implies conns1[a].0@
                    != conns1[b].0@ by {
                    if b < conns0.len() {
                        assert(conns0[a].0@ != conns0[b].0@);
                    } else {
                        assert(conns1[b].0@ == display_name@);
                        if conns0[a].0@ == display_name@ {
                            assert(has_conn(conns0, display_name@));
                        }
                    }
                }
            }
            assert(conns_wf(conns1)) by {
                assert forall|k: int| 0 <= k < conns1.len() implies (#[trigger] conns1[k].1).wf()
                    by {
                    if k < conns0.len() {
                        assert(conns0[k].1.wf());
                    }
                }
            }
        }
        Ok(())
    }

    /// Drops the record keyed by this display name, if one is cached.
    pub fn remove_connection(&mut self, display_name: &String) -> (removed: bool)
        requires
            old(self).wf(),
        ensures
            final(self).wf(),
            final(self).db == old(self).db,
            final(self).node_id == old(self).node_id,
            removed <==> has_conn(old(self).connections@, display_name@),
            !removed ==> final(self).connections@ == old(self).connections@,
            removed ==> exists|w: int|
                0 <= w < old(self).connections@.len() && (#[trigger] old(self).connections@[w].0@)
                    == display_name@ && final(self).connections@ == old(
                    self,
                ).connections@.remove(w),
            !has_conn(final(self).connections@, display_name@),
            final(self).last_sent_ms == old(self).last_sent_ms,
            final(self).sent_log == old(self).sent_log,
    {
        let found = self.find_connection(display_name);
        match found {
            None => {
                proof {
                    assert(!has_conn(self.connections@, display_name@));
                }
                false
            },
            Some(w) => {
                let ghost conns0 = self.connections@;
                let _ = self.connections.remove(w);
                proof {
                    let conns1 = self.connections@;
                    assert(conns1 =~= conns0.remove(w as int));
                    assert(conns1.len() == conns0.len() - 1);
                    assert(forall|k: int|
                        0 <= k < w ==> (#[trigger] conns1[k]) == conns0[k]);
                    assert(forall|k: int|
                        w <= k < conns1.len() ==> (#[trigger] conns1[k]) == conns0[k + 1]);
                    assert(conn_keys_distinct(conns1)) by {
                        assert forall|a: int, b: int| 0 <= a < b < conns1.len() implies conns1[a].0@
                            != conns1[b].0@ by {
                            let a0: int = if a < w { a } else { a + 1 };
                            let b0: int = if b < w { b } else { b + 1 };
                            assert(conns1[a] == conns0[a0]);
                            assert(conns1[b] == conns0[b0]);
                        }
                    }
                    assert(conns_wf(conns1)) by {
                        assert forall|k: int| 0 <= k < conns1.len() implies (#[trigger] conns1[k].1).wf()
                            by {
                            let k0: int = if k < w { k } else { k + 1 };
                            assert(conns1[k] == conns0[k0]);
                            assert(conns0[k0].1.wf());
                        }
                    }
                    assert(!has_conn(conns1, display_name@)) by {
                        if has_conn(conns1, display_name@) {
                            let k = choose|k: int|
                                0 <= k < conns1.len() && (#[trigger] conns1[k].0@)
                                    == display_name@;
                            let k0: int = if k < w { k } else { k + 1 };
                            assert(conns1[k] == conns0[k0]);
                            assert(k0 != w);
                            assert(conns0[k0].0@ == conns0[w as int].0@);
                            assert(false);
                        }
                    }
                }
                true
            },
        }
    }
}

/// The change one status update makes to the user table: the matching row
/// gets the new status, every other row stays as it was.
pub open spec fn spec_status_update_effect(
    users0: Seq<User>,
    users1: Seq<User>,
    node: Seq<char>,
    status: UserStatus,
) -> bool {
    &&& users1.len() == users0.len()
    &&& (forall|k: int|
        0 <= k < users0.len() && (#[trigger] users0[k].node_id@) != node ==> users1[k]
            == users0[k])
    &&& (forall|k: int|
        0 <= k < users0.len() && (#[trigger] users0[k].node_id@) == node ==> users1[k].status
            == status && users1[k].display_name == users0[k].display_name && users1[k].node_id
            == users0[k].node_id && users1[k].user_id == users0[k].user_id)
}

/// The work the supervisor hands back to its host to perform: spawning an
/// initiator or responder task, or putting one frame on a data channel.
#[derive(Debug)]
pub enum RunAction {
    /// Start an initiator for this session kind toward the resolved peer
    /// (display name, then stored node id).
    SpawnInitiator(SessionType, String, String),
    /// Start a responder for an incoming connection of this kind.
    SpawnResponder(SessionType),
    /// Deliver this text (display name, then content) over the peer's data
    /// channel, best effort.
    SendFrame(String, String),
}

/// What one command produced: an optional reply for the waiting client, an
/// optional task for the host, and whether the loop should stop.
pub struct RunOutcome {
    pub response: Option<IPCResponse>,
    pub action: Option<RunAction>,
    pub stop: bool,
}

impl Client {
    /// Runs one command from the command channel; `now_ms` is the host
    /// clock's reading, used for any timestamp the command records.
    /// Long-running work is not performed here: it is handed back as the
    /// outcome's action.
    pub fn handle_command(&mut self, cmd: RunMessage, now_ms: u64) -> (r: RunOutcome)
        requires
            old(self).wf(),
            now_ms <= MAX_TIMESTAMP_MS,
            match cmd {
                RunMessage::UpdateStatus(ref n, _) => n.wf(),
                RunMessage::Adduser(ref n, _) => n.wf(),
                _ => true,
            },
        ensures
            final(self).wf(),
            final(self).node_id == old(self).node_id,
            match cmd {
                RunMessage::UpdateStatus(n, s) => {
                    &&& r.response is None && r.action is None && !r.stop
                    &&& final(self).connections == old(self).connections
                    &&& final(self).last_sent_ms == old(self).last_sent_ms
                    &&& final(self).sent_log == old(self).sent_log
                    &&& final(self).db.messages@ == old(self).db.messages@
                    &&& spec_status_update_effect(
                        old(self).db.users@,
                        final(self).db.users@,
                        hex_of(n.bytes@),
                        s,
                    )
                },
                RunMessage::Adduser(n, d) => {
                    &&& r.response is None && r.action is None && !r.stop
                    &&& final(self).connections == old(self).connections
                    &&& final(self).last_sent_ms == old(self).last_sent_ms
                    &&& final(self).sent_log == old(self).sent_log
                    &&& final(self).db.messages@ == old(self).db.messages@
                    &&& spec_write_user_effect(
                        old(self).db.users@,
                        final(self).db.users@,
                        d@,
                        hex_of(n.bytes@),
                        UserStatus::Online,
                    )
                },
                RunMessage::InitConn(kind, name) => {
                    &&& *final(self) == *old(self)
                    &&& !r.stop
                    &&& if kind != SessionType::Chat {
                        r.action is None && (r.response matches Some(IPCResponse::Error(e))
                            && e.error@ == spec_error_message(ErrorKind::NotImplemented))
                    } else if has_conn(old(self).connections@, name@) {
                        r.action is None && (r.response matches Some(IPCResponse::Error(e))
                            && e.error@ == spec_error_message(ErrorKind::AlreadySet))
                    } else if has_name(old(self).db.users@, name@) {
                        r.response is None && (r.action matches Some(RunAction::SpawnInitiator(
                            k2,
                            d2,
                            node2,
                        )) && k2 == kind && d2@ == name@ && (exists|i: int|
                            0 <= i < old(self).db.users@.len() && (#[trigger] old(
                                self,
                            ).db.users@[i].display_name@) == name@ && node2@ == old(
                                self,
                            ).db.users@[i].node_id@))
                    } else {
                        r.action is None && (r.response matches Some(IPCResponse::Error(e))
                            && e.error@ == spec_error_message(ErrorKind::NotFound))
                    }
                },
                RunMessage::RecvConn(kind) => {
                    &&& *final(self) == *old(self)
                    &&& !r.stop
                    &&& if kind == SessionType::Chat {
                        r.response is None && (r.action matches Some(RunAction::SpawnResponder(
                            k2,
                        )) && k2 == kind)
                    } else {
                        r.action is None && (r.response matches Some(IPCResponse::Error(e))
                            && e.error@ == spec_error_message(ErrorKind::NotImplemented))
                    }
                },
                RunMessage::GetUsers => {
                    &&& *final(self) == *old(self)
                    &&& !r.stop && r.action is None
                    &&& (r.response matches Some(IPCResponse::SendUsers(resp)) && resp.users@
                        == old(self).db.users@)
                },
                RunMessage::GetUser(name) => {
                    &&& *final(self) == *old(self)
                    &&& !r.stop && r.action is None
                    &&& if has_name(old(self).db.users@, name@) {
                        r.response matches Some(IPCResponse::SendUser(u)) && (exists|i: int|
                            0 <= i < old(self).db.users@.len() && (#[trigger] old(
                                self,
                            ).db.users@[i].display_name@) == name@ && u == old(
                                self,
                            ).db.users@[i])
                    } else {
                        r.response matches Some(IPCResponse::Error(e)) && e.error@
                            == spec_error_message(ErrorKind::NotFound)
                    }
                },
                RunMessage::SendMessage(name, content) => {
                    &&& !r.stop
                    &&& final(self).connections == old(self).connections
                    &&& final(self).db.users@ == old(self).db.users@
                    &&& r.response is None
                    &&& (r.action matches Some(RunAction::SendFrame(d2, c2)) && d2@ == name@
                        && c2@ == content@)
                    &&& (old(self).db.messages@.len() < MAX_TABLE_ROWS ==> spec_message_appended(
                        old(self).db.messages@,
                        final(self).db.messages@,
                        content@,
                        hex_of(old(self).node_id.bytes@),
                        None,
                        Some(iso_of(monotone_ts(now_ms, old(self).last_sent_ms))),
                    ) && final(self).last_sent_ms == monotone_ts(now_ms, old(self).last_sent_ms))
                    &&& (old(self).db.messages@.len() >= MAX_TABLE_ROWS
                        ==> final(self).db.messages@ == old(self).db.messages@
                        && final(self).last_sent_ms == old(self).last_sent_ms)
                },
                RunMessage::Shutdown => {
                    &&& r.stop && r.response is None && r.action is None
                    &&& final(self).db == old(self).db
                    &&& final(self).last_sent_ms == old(self).last_sent_ms
                    &&& final(self).sent_log == old(self).sent_log
                    &&& final(self).connections@.len() == 0
                },
            },
    {
        match cmd {
            RunMessage::UpdateStatus(n, s) => {
                let _ = self.update_status(n, s);
                RunOutcome { response: None, action: None, stop: false }
            },
            RunMessage::Adduser(n, d) => {
                let _ = self.add_user(n, d);
                RunOutcome { response: None, action: None, stop: false }
            },
            RunMessage::InitConn(kind, name) => {
                if !matches!(kind, SessionType::Chat) {
                    return RunOutcome {
                        response: Some(
                            IPCResponse::Error(
                                IPCErrorType { error: ErrorKind::NotImplemented.message() },
                            ),
                        ),
                        action: None,
                        stop: false,
                    };
                }
                if self.find_connection(&name).is_some() {
                    return RunOutcome {
                        response: Some(
                            IPCResponse::Error(
                                IPCErrorType { error: ErrorKind::AlreadySet.message() },
                            ),
                        ),
                        action: None,
                        stop: false,
                    };
                }
                match self.db.get_user_node_id(&name) {
                    Ok(node_hex) => RunOutcome {
                        response: None,
                        action: Some(RunAction::SpawnInitiator(kind, name, node_hex)),
                        stop: false,
                    },
                    Err(_) => RunOutcome {
                        response: Some(
                            IPCResponse::Error(
                                IPCErrorType { error: ErrorKind::NotFound.message() },
                            ),
                        ),
                        action: None,
                        stop: false,
                    },
                }
            },
            RunMessage::RecvConn(kind) => {
                if matches!(kind, SessionType::Chat) {
                    RunOutcome {
                        response: None,
                        action: Some(RunAction::SpawnResponder(kind)),
                        stop: false,
                    }
                } else {
                    RunOutcome {
                        response: Some(
                            IPCResponse::Error(
                                IPCErrorType { error: ErrorKind::NotImplemented.message() },
                            ),
                        ),
                        action: None,
                        stop: false,
                    }
                }
            },
            RunMessage::GetUsers => {
                let users = self.get_users();
                RunOutcome {
                    response: Some(IPCResponse::SendUsers(SendUsersResp { users })),
                    action: None,
                    stop: false,
                }
            },
            RunMessage::GetUser(name) => {
                let mut i: usize = 0;
                while i < self.db.users.len()
                    invariant
                        0 <= i <= self.db.users@.len(),
                        *self == *old(self),
                        old(self).wf(),
                        now_ms <= MAX_TIMESTAMP_MS,
                        cmd matches RunMessage::GetUser(nm) && nm == name,
                        forall|k: int|
                            0 <= k < i ==> (#[trigger] self.db.users@[k].display_name@)
                                != name@,
                    decreases self.db.users@.len() - i,
                {
                    let row = &self.db.users[i];
                    if row.display_name == name {
                        proof {
                            assert((#[trigger] self.db.users@[i as int].display_name@)
                                == name@);
                            assert(has_name(self.db.users@, name@));
                        }
                        return RunOutcome {
                            response: Some(IPCResponse::SendUser(row.duplicate())),
                            action: None,
                            stop: false,
                        };
                    }
                    i = i + 1;
                }
                proof {
                    if has_name(self.db.users@, name@) {
                        let k = choose|k: int|
                            0 <= k < self.db.users@.len() && (#[trigger] self.db.users@[
                                k
                            ].display_name@) == name@;
                        assert(false);
                    }
                }
                RunOutcome {
                    response: Some(
                        IPCResponse::Error(IPCErrorType { error: ErrorKind::NotFound.message() }),
                    ),
                    action: None,
                    stop: false,
                }
            },
            RunMessage::SendMessage(name, content) => {
                let frame_content = content.clone();
                let _ = self.store_message(TextMessage { content, timestamp: now_ms });
                RunOutcome {
                    response: None,
                    action: Some(RunAction::SendFrame(name, frame_content)),
                    stop: false,
                }
            },
            RunMessage::Shutdown => {
                self.connections = Vec::new();
                RunOutcome { response: None, action: None, stop: true }
            },
        }
    }

    /// Fans one event of a connection into the supervisor: an inbound text
    /// message is persisted at once under the connection's remote identity
    /// (`now_ms`, the host clock's reading, becomes its arrival time), and
    /// a terminal state transition drops the record.  The result says
    /// whether the record was dropped.
    pub fn handle_conn_event(&mut self, display_name: &String, event: MessageType, now_ms: u64) -> (removed:
        bool)
        requires
            old(self).wf(),
            now_ms <= MAX_TIMESTAMP_MS,
        ensures
            final(self).wf(),
            final(self).node_id == old(self).node_id,
            final(self).db.users@ == old(self).db.users@,
            final(self).last_sent_ms == old(self).last_sent_ms,
            final(self).sent_log == old(self).sent_log,
            !has_conn(old(self).connections@, display_name@) ==> (*final(self) == *old(self)
                && !removed),
            match event {
                MessageType::Message(m) => {
                    &&& final(self).connections@ == old(self).connections@
                    &&& !removed
                    &&& (has_conn(old(self).connections@, display_name@) ==> exists|w: int|
                        0 <= w < old(self).connections@.len() && (#[trigger] old(
                            self,
                        ).connections@[w].0@) == display_name@ && (match old(
                            self,
                        ).connections@[w].1.remote_node_id {
                            Some(n) => (old(self).db.messages@.len() < MAX_TABLE_ROWS
                                ==> spec_message_appended(
                                old(self).db.messages@,
                                final(self).db.messages@,
                                m.content@,
                                hex_of(n.bytes@),
                                Some(iso_of(now_ms)),
                                None,
                            )) && (old(self).db.messages@.len() >= MAX_TABLE_ROWS
                                ==> final(self).db.messages@ == old(self).db.messages@),
                            None => final(self).db.messages@ == old(self).db.messages@,
                        }))
                },
                MessageType::ConnectionState(s) => {
                    &&& final(self).db == old(self).db
                    &&& (has_conn(old(self).connections@, display_name@) ==> exists|w: int|
                        0 <= w < old(self).connections@.len() && (#[trigger] old(
                            self,
                        ).connections@[w].0@) == display_name@ && (if s.spec_is_terminal() {
                            removed && final(self).connections@ == old(
                                self,
                            ).connections@.remove(w)
                        } else {
                            !removed && final(self).connections@ == old(
                                self,
                            ).connections@.update(
                                w,
                                ((
                                    old(self).connections@[w].0,
                                    (Connection {
                                        state: s,
                                        ..old(self).connections@[w].1
                                    }),
                                )),
                            )
                        }))
                },
            },
    {
        let found = self.find_connection(display_name);
        let w: usize = match found {
            None => {
                return false;
            },
            Some(w) => w,
        };
        let ghost conns0 = self.connections@;
        match event {
            MessageType::Message(m) => {
                let sender_opt = {
                    let pair = &self.connections[w];
                    pair.1.get_remote_node_id()
                };
                match sender_opt {
                    None => {
                        proof {
                            assert(conns0[w as int].0@ == display_name@);
                        }
                        false
                    },
                    Some(sender) => {
                        proof {
                            assert(conns0[w as int].1.wf());
                        }
                        let _ = self.store_inbound_message(&sender, m, now_ms);
                        proof {
                            assert(conns0[w as int].0@ == display_name@);
                        }
                        false
                    },
                }
            },
            MessageType::ConnectionState(s) => {
                let mut pair = self.connections.remove(w);
                proof {
                    assert(conns0[w as int].1.wf());
                }
                let terminal = pair.1.on_state_change(s);
                if terminal {
                    proof {
                        let conns1 = self.connections@;
                        assert(conns1 =~= conns0.remove(w as int));
                        assert(conn_keys_distinct(conns1)) by {
                            assert forall|a: int, b: int| 0 <= a < b < conns1.len() implies conns1[a].0@
                                != conns1[b].0@ by {
                                let a0: int = if a < w { a } else { a + 1 };
                                let b0: int = if b < w { b } else { b + 1 };
                                assert(conns1[a] == conns0[a0]);
                                assert(conns1[b] == conns0[b0]);
                            }
                        }
                        assert(conns_wf(conns1)) by {
                            assert forall|k: int| 0 <= k < conns1.len() implies (#[trigger] conns1[
                                k
                            ].1).wf() by {
                                let k0: int = if k < w { k } else { k + 1 };
                                assert(conns1[k] == conns0[k0]);
                                assert(conns0[k0].1.wf());
                            }
                        }
                        assert(conns0[w as int].0@ == display_name@);
                    }
                    true
                } else {
                    let ghost conns1 = self.connections@;
                    self.connections.insert(w, pair);
                    proof {
                        let conns2 = self.connections@;
                        assert(conns1 == conns0.remove(w as int));
                        let updated = ((
                            conns0[w as int].0,
                            (Connection { state: s, ..conns0[w as int].1 }),
                        ));
                        assert(pair == updated);
                        assert(conns2 =~= conns0.update(w as int, updated)) by {
                            assert(conns2.len() == conns0.len());
                            assert forall|k: int| 0 <= k < conns2.len() implies conns2[k]
                                == conns0.update(w as int, updated)[k] by {
                                if k < w as int {
                                    assert(conns2[k] == conns1[k]);
                                    assert(conns1[k] == conns0[k]);
                                } else if k == w as int {
                                    assert(conns2[k] == pair);
                                } else {
                                    assert(conns2[k] == conns1[k - 1]);
                                    assert(conns1[k - 1] == conns0[k]);
                                }
                            }
                        }
                        assert(conn_keys_distinct(conns2)) by {
                            assert forall|a: int, b: int| 0 <= a < b < conns2.len() implies conns2[a].0@
                                != conns2[b].0@ by {
                                assert(conns2[a].0@ == conns0[a].0@);
                                assert(conns2[b].0@ == conns0[b].0@);
                            }
                        }
                        assert(conns_wf(conns2)) by {
                            assert forall|k: int| 0 <= k < conns2.len() implies (#[trigger] conns2[
                                k
                            ].1).wf() by {
                                if k == w as int {
                                    assert(conns2[k].1 == pair.1);
                                } else {
                                    assert(conns2[k].1 == conns0[k].1);
                                    assert(conns0[k].1.wf());
                                }
                            }
                        }
                        assert(conns0[w as int].0@ == display_name@);
                    }
                    false
                }
            },
        }
    }
}

/// The supervisor's map holds at most one connection record per display
/// name, and exactly one while a record for that name is cached.
pub proof fn lemma_connection_key_unique(conns: Seq<(String, Connection)>, name: Seq<char>)
    requires
        conn_keys_distinct(conns),
    ensures
        count_conn(conns, name) <= 1,
        has_conn(conns, name) ==> count_conn(conns, name) == 1,
    decreases conns.len(),
{
    if conns.len() == 0 {
    } else {
        let prefix = conns.drop_last();
        assert(conn_keys_distinct(prefix)) by {
            assert(forall|i: int, j: int|
                0 <= i < j < prefix.len() ==> prefix[i] == conns[i] && prefix[j] == conns[j]);
        }
        lemma_connection_key_unique(prefix, name);
        lemma_count_conn_bounds(prefix, name);
        if conns.last().0@ == name {
            assert(!has_conn(prefix, name)) by {
                if has_conn(prefix, name) {
                    let i = choose|i: int|
                        0 <= i < prefix.len() && (#[trigger] prefix[i].0@) == name;
                    assert(conns[i].0@ == conns[conns.len() - 1].0@);
                    assert(false);
                }
            }
            lemma_count_conn_zero(prefix, name);
        } else {
            if has_conn(conns, name) {
                let i = choose|i: int| 0 <= i < conns.len() && (#[trigger] conns[i].0@) == name;
                assert(i < conns.len() - 1);
                assert(prefix[i].0@ == name);
                assert(has_conn(prefix, name));
            }
        }
    }
}

proof fn lemma_count_conn_bounds(conns: Seq<(String, Connection)>, name: Seq<char>)
    ensures
        0 <= count_conn(conns, name) <= conns.len(),
    decreases conns.len(),
{
    if conns.len() > 0 {
        lemma_count_conn_bounds(conns.drop_last(), name);
    }
}

proof fn lemma_count_conn_zero(conns: Seq<(String, Connection)>, name: Seq<char>)
    requires
        !has_conn(conns, name),
    ensures
        count_conn(conns, name) == 0,
    decreases conns.len(),
{
    if conns.len() > 0 {
        let prefix = conns.drop_last();
        assert(!has_conn(prefix, name)) by {
            if has_conn(prefix, name) {
                let i = choose|i: int| 0 <= i < prefix.len() && (#[trigger] prefix[i].0@) == name;
                assert(conns[i].0@ == name);
            }
        }
        lemma_count_conn_zero(prefix, name);
        assert(conns.last().0@ != name) by {
            if conns.last().0@ == name {
                assert(conns[conns.len() - 1].0@ == name);
            }
        }
    }
}

/// Message rows never disappear: once an inbound message has been
/// persisted, it is still in the table at any later point, since every
/// store step either appends a row or leaves the table unchanged.  In
/// particular it is persisted before any later state transition of its
/// connection is processed.
pub proof fn lemma_message_persisted_stays(
    msgs0: Seq<Message>,
    msgs1: Seq<Message>,
    content: Seq<char>,
    sender: Seq<char>,
)
    requires
        has_message(msgs0, content, sender),
        msgs0.is_prefix_of(msgs1),
    ensures
        has_message(msgs1, content, sender),
{
    let k = choose|k: int|
        0 <= k < msgs0.len() && (#[trigger] msgs0[k].content@) == content
            && msgs0[k].sender_node_id@ == sender;
    assert(msgs1[k] == msgs0[k]);
}

/// Authored timestamps never step backwards: the timestamps this endpoint
/// has recorded on the messages it authored form a nondecreasing sequence,
/// whatever the host clock reported.
pub proof fn lemma_sent_timestamps_monotone(c: &Client)
    requires
        c.wf(),
    ensures
        forall|i: int, j: int|
            0 <= i < j < c.sent_log@.len() ==> c.sent_log@[i] <= c.sent_log@[j],
{
}

} // verus!
