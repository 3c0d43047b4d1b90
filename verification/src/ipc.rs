use vstd::prelude::*;

use crate::enums::RunMessage;
use crate::enums::UserStatus;
use crate::models::User;
use crate::strutil::str_eq;
use crate::types::hex_digit;
use crate::types::hex_digit_char;
use crate::types::hex_of;
use crate::types::NodeId;

verus! {

/// A request arriving on the command transport.
#[derive(Debug)]
pub enum IPCMessage {
    AddUser(AddUserMsg),
    UpdateStatus(UpdateStatusMsg),
    SendMessage(SendMessageMsg),
    GetUsers,
    GetNodeId,
    Shutdown,
}

/// Payload of an `AddUser` request.
#[derive(Debug)]
pub struct AddUserMsg {
    pub node_id: NodeId,
    pub display_name: String,
}

/// Payload of an `UpdateStatus` request.
#[derive(Debug)]
pub struct UpdateStatusMsg {
    pub node_id: NodeId,
    pub user_status: UserStatus,
}

/// Payload of a `SendMessage` request: the peer's display name and the text
/// to deliver.
#[derive(Debug)]
pub struct SendMessageMsg {
    pub display_name: String,
    pub content: String,
}

/// A response sent back on the command transport.
#[derive(Debug)]
pub enum IPCResponse {
    SendUsers(SendUsersResp),
    SendUser(User),
    Error(IPCErrorType),
}

/// Payload of a `SendUsers` response.
#[derive(Debug)]
pub struct SendUsersResp {
    pub users: Vec<User>,
}

/// Payload of an `Error` response.
#[derive(Debug)]
pub struct IPCErrorType {
    pub error: String,
}

/// The JSON escaping of one character: quote, backslash and the three
/// common control characters get a backslash escape; everything else
/// stands for itself.
pub open spec fn esc_char(c: char) -> Seq<char> {
    if c == '"' {
        seq!['\\', '"']
    } else if c == '\\' {
        seq!['\\', '\\']
    } else if c == '\n' {
        seq!['\\', 'n']
    } else if c == '\r' {
        seq!['\\', 'r']
    } else if c == '\t' {
        seq!['\\', 't']
    } else {
        seq![c]
    }
}

/// The JSON escaping of a string body.
pub open spec fn esc(s: Seq<char>) -> Seq<char>
    decreases s.len(),
{
    if s.len() == 0 {
        Seq::<char>::empty()
    } else {
        esc_char(s[0]) + esc(s.drop_first())
    }
}

/// Appending one character appends its escaping.
pub proof fn lemma_esc_snoc(s: Seq<char>, c: char)
    ensures
        esc(s.push(c)) == esc(s) + esc_char(c),
    decreases s.len(),
{
    let t = s.push(c);
    if s.len() == 0 {
        assert(t[0] == c);
        assert(t.drop_first() =~= Seq::<char>::empty());
        assert(esc(t) == esc_char(t[0]) + esc(t.drop_first()));
        assert(esc(Seq::<char>::empty()) == Seq::<char>::empty());
        assert(esc(t) =~= esc(s) + esc_char(c));
    } else {
        assert(t[0] == s[0]);
        assert(t.drop_first() =~= s.drop_first().push(c));
        lemma_esc_snoc(s.drop_first(), c);
        assert(esc(t) == esc_char(t[0]) + esc(t.drop_first()));
        assert(esc(s) == esc_char(s[0]) + esc(s.drop_first()));
        assert(esc(t) =~= esc(s) + esc_char(c));
    }
}

/// The character an escape code stands for, if it is a valid code.
pub open spec fn unesc_code(c: char) -> Option<char> {
    if c == '"' {
        Some('"')
    } else if c == '\\' {
        Some('\\')
    } else if c == 'n' {
        Some('\n')
    } else if c == 'r' {
        Some('\r')
    } else if c == 't' {
        Some('\t')
    } else {
        None
    }
}

/// Scans one JSON string body from the front of `t` up to and including
/// its closing quote; yields the unescaped body and the number of
/// characters consumed.
pub open spec fn unesc_scan(t: Seq<char>) -> Option<(Seq<char>, int)>
    decreases t.len(),
{
    if t.len() == 0 {
        None
    } else if t[0] == '"' {
        Some((Seq::<char>::empty(), 1))
    } else if t[0] == '\\' {
        if t.len() < 2 {
            None
        } else {
            match unesc_code(t[1]) {
                None => None,
                Some(c) => match unesc_scan(t.skip(2)) {
                    None => None,
                    Some(p) => Some((seq![c] + p.0, p.1 + 2)),
                },
            }
        }
    } else if t[0] == '\n' || t[0] == '\r' || t[0] == '\t' {
        None
    } else {
        match unesc_scan(t.skip(1)) {
            None => None,
            Some(p) => Some((seq![t[0]] + p.0, p.1 + 1)),
        }
    }
}

/// Scanning inverts escaping: a scan of an escaped body, its closing
/// quote, and anything after yields exactly that body, having consumed the
/// body and the quote.
pub proof fn lemma_unesc_scan_of_esc(w: Seq<char>, rest: Seq<char>)
    ensures
        unesc_scan(esc(w) + seq!['"'] + rest) == Some((w, esc(w).len() as int + 1)),
    decreases w.len(),
{
    let t = esc(w) + seq!['"'] + rest;
    if w.len() == 0 {
        assert(esc(w) == Seq::<char>::empty());
        assert(t[0] == '"');
        assert(unesc_scan(t) == Some((Seq::<char>::empty(), 1int)));
        assert(Some((Seq::<char>::empty(), 1int)) == Some((w, esc(w).len() as int + 1)));
    } else {
        let c = w[0];
        let u = esc_char(c);
        assert(esc(w) == u + esc(w.drop_first()));
        lemma_unesc_scan_of_esc(w.drop_first(), rest);
        let t2 = esc(w.drop_first()) + seq!['"'] + rest;
        if c == '"' || c == '\\' || c == '\n' || c == '\r' || c == '\t' {
            assert(u.len() == 2 && u[0] == '\\');
            assert(t[0] == '\\');
            assert(t.len() >= 2);
            assert(t[1] == u[1]);
            assert(unesc_code(u[1]) == Some(c));
            assert(t.skip(2) =~= t2);
            assert(unesc_scan(t2) == Some((w.drop_first(), esc(w.drop_first()).len() as int + 1)));
            assert(seq![c] + w.drop_first() =~= w);
            assert(unesc_scan(t) == Some((w, esc(w.drop_first()).len() as int + 1 + 2)));
            assert(esc(w).len() == 2 + esc(w.drop_first()).len());
        } else {
            assert(u =~= seq![c]);
            assert(t[0] == c);
            assert(t[0] != '"' && t[0] != '\\');
            assert(t.skip(1) =~= t2);
            assert(unesc_scan(t2) == Some((w.drop_first(), esc(w.drop_first()).len() as int + 1)));
            assert(seq![c] + w.drop_first() =~= w);
            assert(unesc_scan(t) == Some((w, esc(w.drop_first()).len() as int + 1 + 1)));
            assert(esc(w).len() == 1 + esc(w.drop_first()).len());
        }
    }
}

/// A successful scan consumed exactly the escaping of its result plus the
/// closing quote.
pub proof fn lemma_unesc_scan_sound(t: Seq<char>)
    requires
        unesc_scan(t) is Some,
    ensures
        ({
            let p = unesc_scan(t).unwrap();
            &&& 1 <= p.1 <= t.len()
            &&& t.subrange(0, p.1) == esc(p.0) + seq!['"']
            &&& esc(p.0).len() == p.1 - 1
        }),
    decreases t.len(),
{
    let p = unesc_scan(t).unwrap();
    if t[0] == '"' {
        assert(t.subrange(0, 1) =~= esc(Seq::<char>::empty()) + seq!['"']);
    } else if t[0] == '\\' {
        let c = unesc_code(t[1]).unwrap();
        let q = unesc_scan(t.skip(2)).unwrap();
        lemma_unesc_scan_sound(t.skip(2));
        assert(t.skip(2).subrange(0, q.1) == esc(q.0) + seq!['"']);
        assert(esc(seq![c] + q.0) =~= esc_char(c) + esc(q.0)) by {
            assert((seq![c] + q.0).drop_first() =~= q.0);
            assert((seq![c] + q.0)[0] == c);
        }
        assert(esc_char(c) =~= seq!['\\', t[1]]);
        assert(t.subrange(0, p.1) =~= esc(p.0) + seq!['"']) by {
            assert forall|i: int| 0 <= i < p.1 implies t.subrange(0, p.1)[i] == (esc(p.0)
                + seq!['"'])[i] by {
                if i >= 2 {
                    assert(t.subrange(0, p.1)[i] == t.skip(2).subrange(0, q.1)[i - 2]);
                }
            }
        }
    } else {
        let q = unesc_scan(t.skip(1)).unwrap();
        lemma_unesc_scan_sound(t.skip(1));
        assert(t.skip(1).subrange(0, q.1) == esc(q.0) + seq!['"']);
        assert(esc(seq![t[0]] + q.0) =~= esc_char(t[0]) + esc(q.0)) by {
            assert((seq![t[0]] + q.0).drop_first() =~= q.0);
            assert((seq![t[0]] + q.0)[0] == t[0]);
        }
        assert(esc_char(t[0]) =~= seq![t[0]]);
        assert(t.subrange(0, p.1) =~= esc(p.0) + seq!['"']) by {
            assert forall|i: int| 0 <= i < p.1 implies t.subrange(0, p.1)[i] == (esc(p.0)
                + seq!['"'])[i] by {
                if i >= 1 {
                    assert(t.subrange(0, p.1)[i] == t.skip(1).subrange(0, q.1)[i - 1]);
                }
            }
        }
    }
}

/// The JSON name of a user status.
pub open spec fn status_json(s: UserStatus) -> Seq<char> {
    match s {
        UserStatus::Online => "Online"@,
        UserStatus::Away => "Away"@,
        UserStatus::Offline => "Offline"@,
    }
}

/// A JSON string body in its wire form: the escaped characters followed by
/// the closing quote.  (The opening quote belongs to the literal before
/// it.)
pub open spec fn jstrq(s: Seq<char>) -> Seq<char> {
    esc(s) + seq!['"']
}

/// The canonical JSON rendering of one request, externally tagged, with
/// fixed field order and no whitespace.
pub open spec fn json_of_request(m: IPCMessage) -> Seq<char> {
    match m {
        IPCMessage::AddUser(msg) => "{\"type\":\""@ + jstrq("AddUser"@)
            + ",\"data\":{\"nodeId\":\""@ + jstrq(hex_of(msg.node_id.bytes@))
            + ",\"displayName\":\""@ + jstrq(msg.display_name@) + "}}"@,
        IPCMessage::UpdateStatus(msg) => "{\"type\":\""@ + jstrq("UpdateStatus"@)
            + ",\"data\":{\"nodeId\":\""@ + jstrq(hex_of(msg.node_id.bytes@))
            + ",\"userStatus\":\""@ + jstrq(status_json(msg.user_status)) + "}}"@,
        IPCMessage::SendMessage(msg) => "{\"type\":\""@ + jstrq("SendMessage"@)
            + ",\"data\":{\"nodeId\":\""@ + jstrq(msg.display_name@) + ",\"content\":\""@
            + jstrq(msg.content@) + "}}"@,
        IPCMessage::GetUsers => "{\"type\":\""@ + jstrq("GetUsers"@) + "}"@,
        IPCMessage::GetNodeId => "{\"type\":\""@ + jstrq("GetNodeId"@) + "}"@,
        IPCMessage::Shutdown => "{\"type\":\""@ + jstrq("Shutdown"@) + "}"@,
    }
}

/// A request whose node identities are full keys: exactly the requests the
/// grammar can carry.
pub open spec fn req_wf(m: IPCMessage) -> bool {
    match m {
        IPCMessage::AddUser(msg) => msg.node_id.wf(),
        IPCMessage::UpdateStatus(msg) => msg.node_id.wf(),
        _ => true,
    }
}

/// Appends the JSON escaping of `s`.
fn append_escaped(out: &mut String, s: &str)
    ensures
        final(out)@ == old(out)@ + esc(s@),
{
    let n = s.unicode_len();
    let ghost prev = out@;
    let mut i: usize = 0;
    while i < n
        invariant
            0 <= i <= n,
            n == s@.len(),
            out@ == prev + esc(s@.take(i as int)),
        decreases n - i,
    {
        let c = s.get_char(i);
        let ghost mid = out@;
        if c == '"' {
            out.push('\\');
            out.push('"');
        } else if c == '\\' {
            out.push('\\');
            out.push('\\');
        } else if c == '\n' {
            out.push('\\');
            out.push('n');
        } else if c == '\r' {
            out.push('\\');
            out.push('r');
        } else if c == '\t' {
            out.push('\\');
            out.push('t');
        } else {
            out.push(c);
        }
        proof {
            assert(out@ =~= mid + esc_char(c));
            assert(s@.take(i + 1) =~= s@.take(i as int).push(c));
            lemma_esc_snoc(s@.take(i as int), c);
            assert(out@ =~= prev + esc(s@.take(i + 1)));
        }
        i = i + 1;
    }
    proof {
        assert(s@.take(s@.len() as int) =~= s@);
    }
}

/// Appends a JSON string body and its closing quote.
fn append_jstrq(out: &mut String, s: &str)
    ensures
        final(out)@ == old(out)@ + jstrq(s@),
{
    let ghost prev = out@;
    append_escaped(out, s);
    out.push('"');
    proof {
        assert(out@ =~= prev + jstrq(s@));
    }
}

/// Serializes one request into the canonical JSON form of the grammar.
pub fn serialize_request(m: &IPCMessage) -> (r: String)
    ensures
        r@ == json_of_request(*m),
{
    let mut out = "{\"type\":\"".to_owned();
    match m {
        IPCMessage::AddUser(msg) => {
            append_jstrq(&mut out, "AddUser");
            out.append(",\"data\":{\"nodeId\":\"");
            let hex = crate::types::hex_encode(&msg.node_id.bytes);
            append_jstrq(&mut out, hex.as_str());
            out.append(",\"displayName\":\"");
            append_jstrq(&mut out, msg.display_name.as_str());
            out.append("}}");
            proof {
                assert(out@ =~= json_of_request(*m));
            }
        },
        IPCMessage::UpdateStatus(msg) => {
            append_jstrq(&mut out, "UpdateStatus");
            out.append(",\"data\":{\"nodeId\":\"");
            let hex = crate::types::hex_encode(&msg.node_id.bytes);
            append_jstrq(&mut out, hex.as_str());
            out.append(",\"userStatus\":\"");
            let word = match msg.user_status {
                UserStatus::Online => "Online",
                UserStatus::Away => "Away",
                UserStatus::Offline => "Offline",
            };
            append_jstrq(&mut out, word);
            out.append("}}");
            proof {
                assert(out@ =~= json_of_request(*m));
            }
        },
        IPCMessage::SendMessage(msg) => {
            append_jstrq(&mut out, "SendMessage");
            out.append(",\"data\":{\"nodeId\":\"");
            append_jstrq(&mut out, msg.display_name.as_str());
            out.append(",\"content\":\"");
            append_jstrq(&mut out, msg.content.as_str());
            out.append("}}");
            proof {
                assert(out@ =~= json_of_request(*m));
            }
        },
        IPCMessage::GetUsers => {
            append_jstrq(&mut out, "GetUsers");
            out.append("}");
            proof {
                assert(out@ =~= json_of_request(*m));
            }
        },
        IPCMessage::GetNodeId => {
            append_jstrq(&mut out, "GetNodeId");
            out.append("}");
            proof {
                assert(out@ =~= json_of_request(*m));
            }
        },
        IPCMessage::Shutdown => {
            append_jstrq(&mut out, "Shutdown");
            out.append("}");
            proof {
                assert(out@ =~= json_of_request(*m));
            }
        },
    }
    out
}

/// Whether the literal stands at position `i` of `s`; on a match the
/// position just past it.
fn lit_matches(s: &str, i: usize, lit: &str) -> (r: Option<usize>)
    requires
        i <= s@.len(),
    ensures
        r is Some <==> (i + lit@.len() <= s@.len() && s@.subrange(i as int, i + lit@.len())
            == lit@),
        r matches Some(j) ==> j == i + lit@.len(),
{
    let n = lit.unicode_len();
    let slen = s.unicode_len();
    if n > slen - i {
        proof {
            assert(i + lit@.len() > s@.len());
        }
        return None;
    }
    let mut j: usize = 0;
    while j < n
        invariant
            0 <= j <= n,
            n == lit@.len(),
            slen == s@.len(),
            i + n <= slen,
            forall|k: int| 0 <= k < j ==> s@[i + k] == lit@[k],
        decreases n - j,
    {
        let a = s.get_char(i + j);
        let b = lit.get_char(j);
        if a != b {
            proof {
                assert(s@.subrange(i as int, i + lit@.len())[j as int] != lit@[j as int]);
            }
            return None;
        }
        j = j + 1;
    }
    proof {
        assert(s@.subrange(i as int, i + lit@.len()) =~= lit@);
    }
    Some(i + n)
}

/// Reads one JSON string body starting at `i`, unescaping it; consumes its
/// closing quote.  Succeeds exactly when the scanner accepts the suffix.
fn read_escaped(s: &str, i: usize) -> (r: Option<(String, usize)>)
    requires
        i <= s@.len(),
    ensures
        r matches Some(p) ==> i < p.1 <= s@.len() && unesc_scan(s@.skip(i as int)) == Some(
            (p.0@, p.1 - i as int),
        ),
        r is None ==> unesc_scan(s@.skip(i as int)) is None,
{
    let slen = s.unicode_len();
    let ghost tail0 = s@.skip(i as int);
    let mut out = String::new();
    let mut j: usize = i;
    proof {
        assert(Seq::<char>::empty() + tail0 =~= tail0);
        if unesc_scan(tail0) is Some {
            let p = unesc_scan(tail0).unwrap();
            assert(out@ + p.0 =~= p.0);
        }
    }
    while j < slen
        invariant
            i <= j <= slen,
            slen == s@.len(),
            tail0 == s@.skip(i as int),
            unesc_scan(tail0) == (match unesc_scan(s@.skip(j as int)) {
                None => None,
                Some(p) => Some((out@ + p.0, (j - i) + p.1)),
            }),
        decreases slen - j,
    {
        let c = s.get_char(j);
        let ghost tailj = s@.skip(j as int);
        proof {
            assert(tailj.len() == slen - j);
            assert(tailj[0] == s@[j as int]);
        }
        if c == '"' {
            proof {
                assert(unesc_scan(tailj) == Some((Seq::<char>::empty(), 1int)));
                assert(out@ + Seq::<char>::empty() =~= out@);
            }
            return Some((out, j + 1));
        }
        if c == '\\' {
            if j + 1 >= slen {
                proof {
                    assert(tailj.len() < 2);
                    assert(unesc_scan(tailj) is None);
                }
                return None;
            }
            let d = s.get_char(j + 1);
            proof {
                assert(tailj[1] == s@[j + 1]);
            }
            let u: char = if d == '"' {
                '"'
            } else if d == '\\' {
                '\\'
            } else if d == 'n' {
                '\n'
            } else if d == 'r' {
                '\r'
            } else if d == 't' {
                '\t'
            } else {
                proof {
                    assert(unesc_code(tailj[1]) is None);
                    assert(unesc_scan(tailj) is None);
                }
                return None;
            };
            let ghost out0 = out@;
            out.push(u);
            proof {
                assert(unesc_code(tailj[1]) == Some(u));
                assert(tailj.skip(2) =~= s@.skip(j + 2));
                if unesc_scan(s@.skip(j + 2)) is Some {
                    let p = unesc_scan(s@.skip(j + 2)).unwrap();
                    assert(unesc_scan(tailj) == Some((seq![u] + p.0, p.1 + 2)));
                    assert(out0 + (seq![u] + p.0) =~= out@ + p.0);
                } else {
                    assert(unesc_scan(tailj) is None);
                }
            }
            j = j + 2;
        } else if c == '\n' || c == '\r' || c == '\t' {
            proof {
                assert(unesc_scan(tailj) is None);
            }
            return None;
        } else {
            let ghost out0 = out@;
            out.push(c);
            proof {
                assert(tailj.skip(1) =~= s@.skip(j + 1));
                if unesc_scan(s@.skip(j + 1)) is Some {
                    let p = unesc_scan(s@.skip(j + 1)).unwrap();
                    assert(unesc_scan(tailj) == Some((seq![c] + p.0, p.1 + 1)));
                    assert(out0 + (seq![c] + p.0) =~= out@ + p.0);
                } else {
                    assert(unesc_scan(tailj) is None);
                }
            }
            j = j + 1;
        }
    }
    proof {
        assert(s@.skip(j as int).len() == 0);
        assert(unesc_scan(s@.skip(j as int)) is None);
    }
    None
}

/// Splitting a subrange at an interior point.
proof fn lemma_cat(s: Seq<char>, a: int, b: int, c: int)
    requires
        0 <= a <= b <= c <= s.len(),
    ensures
        s.subrange(a, c) == s.subrange(a, b) + s.subrange(b, c),
{
    assert(s.subrange(a, c) =~= s.subrange(a, b) + s.subrange(b, c));
}

/// Peeling the known head off a known suffix of `s`.
proof fn lemma_suffix_after(s: Seq<char>, i: int, a: Seq<char>, b: Seq<char>)
    requires
        0 <= i <= s.len(),
        s.skip(i) == a + b,
    ensures
        i + a.len() <= s.len(),
        s.skip(i + a.len()) == b,
        s.subrange(i, i + a.len()) == a,
{
    assert(s.skip(i).len() == s.len() - i);
    assert(s.subrange(i, i + a.len()) =~= a) by {
        assert forall|k: int| 0 <= k < a.len() implies s.subrange(i, i + a.len())[k] == a[k] by {
            assert(s.subrange(i, i + a.len())[k] == s.skip(i)[k]);
        }
    }
    assert(s.skip(i + a.len()) =~= b) by {
        assert forall|k: int| 0 <= k < b.len() implies s.skip(i + a.len())[k] == b[k] by {
            assert(s.skip(i + a.len())[k] == s.skip(i)[k + a.len()]);
        }
    }
}

/// The consumed part of one string read, as a subrange equation.
proof fn lemma_read_piece(s: Seq<char>, i: int, j: int, w: Seq<char>)
    requires
        0 <= i <= s.len(),
        unesc_scan(s.skip(i)) == Some((w, j - i)),
        i < j <= s.len(),
    ensures
        s.subrange(i, j) == jstrq(w),
        jstrq(w).len() == j - i,
{
    lemma_unesc_scan_sound(s.skip(i));
    assert(s.skip(i).subrange(0, j - i) == esc(w) + seq!['"']);
    assert(s.subrange(i, j) =~= s.skip(i).subrange(0, j - i));
    assert(jstrq(w) == esc(w) + seq!['"']);
}

/// The payload of an `AddUser` request, after the type field.
fn parse_add_user_payload(s: &str, i: usize) -> (r: Option<(NodeId, String)>)
    requires
        i <= s@.len(),
    ensures
        r matches Some(p) ==> p.0.wf() && s@.skip(i as int) == ",\"data\":{\"nodeId\":\""@
            + jstrq(hex_of(p.0.bytes@)) + ",\"displayName\":\""@ + (jstrq(p.1@) + "}}"@),
        r is None ==> forall|nb: Seq<u8>, dn: Seq<char>|
            nb.len() == 32 ==> s@.skip(i as int) != ",\"data\":{\"nodeId\":\""@ + jstrq(
                hex_of(nb),
            ) + ",\"displayName\":\""@ + (jstrq(dn) + "}}"@),
{
    let ghost tail = s@.skip(i as int);
    let ghost l1 = ",\"data\":{\"nodeId\":\""@;
    let ghost l2 = ",\"displayName\":\""@;
    let ghost l3 = "}}"@;
    let j1 = match lit_matches(s, i, ",\"data\":{\"nodeId\":\"") {
        Some(j) => j,
        None => {
            proof {
                assert forall|nb: Seq<u8>, dn: Seq<char>|
                    nb.len() == 32 implies tail != l1 + jstrq(hex_of(nb)) + l2 + (jstrq(dn)
                    + l3) by {
                    if tail == l1 + jstrq(hex_of(nb)) + l2 + (jstrq(dn) + l3) {
                        let h = hex_of(nb);
                        assert(tail =~= l1 + (jstrq(h) + (l2 + (jstrq(dn) + l3))));
                        lemma_suffix_after(s@, i as int, l1, jstrq(h) + (l2 + (jstrq(dn) + l3)));
                    }
                }
            }
            return None;
        },
    };
    let (hexs, j2) = match read_escaped(s, j1) {
        Some(p) => p,
        None => {
            proof {
                assert forall|nb: Seq<u8>, dn: Seq<char>|
                    nb.len() == 32 implies tail != l1 + jstrq(hex_of(nb)) + l2 + (jstrq(dn)
                    + l3) by {
                    if tail == l1 + jstrq(hex_of(nb)) + l2 + (jstrq(dn) + l3) {
                        let h = hex_of(nb);
                        assert(tail =~= l1 + (jstrq(h) + (l2 + (jstrq(dn) + l3))));
                        lemma_suffix_after(s@, i as int, l1, jstrq(h) + (l2 + (jstrq(dn) + l3)));
                        assert(jstrq(h) + (l2 + (jstrq(dn) + l3)) =~= esc(h) + seq!['"'] + (l2
                            + (jstrq(dn) + l3)));
                        lemma_unesc_scan_of_esc(h, l2 + (jstrq(dn) + l3));
                    }
                }
            }
            return None;
        },
    };
    let node = match NodeId::from_hex(hexs.as_str()) {
        Some(n) => n,
        None => {
            proof {
                assert forall|nb: Seq<u8>, dn: Seq<char>|
                    nb.len() == 32 implies tail != l1 + jstrq(hex_of(nb)) + l2 + (jstrq(dn)
                    + l3) by {
                    if tail == l1 + jstrq(hex_of(nb)) + l2 + (jstrq(dn) + l3) {
                        let h = hex_of(nb);
                        assert(tail =~= l1 + (jstrq(h) + (l2 + (jstrq(dn) + l3))));
                        lemma_suffix_after(s@, i as int, l1, jstrq(h) + (l2 + (jstrq(dn) + l3)));
                        assert(jstrq(h) + (l2 + (jstrq(dn) + l3)) =~= esc(h) + seq!['"'] + (l2
                            + (jstrq(dn) + l3)));
                        lemma_unesc_scan_of_esc(h, l2 + (jstrq(dn) + l3));
                        assert(hexs@ == h);
                    }
                }
            }
            return None;
        },
    };
    let j3 = match lit_matches(s, j2, ",\"displayName\":\"") {
        Some(j) => j,
        None => {
            proof {
                assert forall|nb: Seq<u8>, dn: Seq<char>|
                    nb.len() == 32 implies tail != l1 + jstrq(hex_of(nb)) + l2 + (jstrq(dn)
                    + l3) by {
                    if tail == l1 + jstrq(hex_of(nb)) + l2 + (jstrq(dn) + l3) {
                        let h = hex_of(nb);
                        assert(tail =~= l1 + (jstrq(h) + (l2 + (jstrq(dn) + l3))));
                        lemma_suffix_after(s@, i as int, l1, jstrq(h) + (l2 + (jstrq(dn) + l3)));
                        assert(jstrq(h) + (l2 + (jstrq(dn) + l3)) =~= esc(h) + seq!['"'] + (l2
                            + (jstrq(dn) + l3)));
                        lemma_unesc_scan_of_esc(h, l2 + (jstrq(dn) + l3));
                        assert(j2 == j1 + jstrq(h).len());
                        lemma_suffix_after(s@, j1 as int, jstrq(h), l2 + (jstrq(dn) + l3));
                        lemma_suffix_after(s@, j2 as int, l2, jstrq(dn) + l3);
                    }
                }
            }
            return None;
        },
    };
    let (dname, j4) = match read_escaped(s, j3) {
        Some(p) => p,
        None => {
            proof {
                assert forall|nb: Seq<u8>, dn: Seq<char>|
                    nb.len() == 32 implies tail != l1 + jstrq(hex_of(nb)) + l2 + (jstrq(dn)
                    + l3) by {
                    if tail == l1 + jstrq(hex_of(nb)) + l2 + (jstrq(dn) + l3) {
                        let h = hex_of(nb);
                        assert(tail =~= l1 + (jstrq(h) + (l2 + (jstrq(dn) + l3))));
                        lemma_suffix_after(s@, i as int, l1, jstrq(h) + (l2 + (jstrq(dn) + l3)));
                        assert(jstrq(h) + (l2 + (jstrq(dn) + l3)) =~= esc(h) + seq!['"'] + (l2
                            + (jstrq(dn) + l3)));
                        lemma_unesc_scan_of_esc(h, l2 + (jstrq(dn) + l3));
                        assert(j2 == j1 + jstrq(h).len());
                        lemma_suffix_after(s@, j1 as int, jstrq(h), l2 + (jstrq(dn) + l3));
                        lemma_suffix_after(s@, j2 as int, l2, jstrq(dn) + l3);
                        assert(jstrq(dn) + l3 =~= esc(dn) + seq!['"'] + l3);
                        lemma_unesc_scan_of_esc(dn, l3);
                    }
                }
            }
            return None;
        },
    };
    let end = match lit_matches(s, j4, "}}") {
        Some(j) => j,
        None => {
            proof {
                assert forall|nb: Seq<u8>, dn: Seq<char>|
                    nb.len() == 32 implies tail != l1 + jstrq(hex_of(nb)) + l2 + (jstrq(dn)
                    + l3) by {
                    if tail == l1 + jstrq(hex_of(nb)) + l2 + (jstrq(dn) + l3) {
                        let h = hex_of(nb);
                        assert(tail =~= l1 + (jstrq(h) + (l2 + (jstrq(dn) + l3))));
                        lemma_suffix_after(s@, i as int, l1, jstrq(h) + (l2 + (jstrq(dn) + l3)));
                        assert(jstrq(h) + (l2 + (jstrq(dn) + l3)) =~= esc(h) + seq!['"'] + (l2
                            + (jstrq(dn) + l3)));
                        lemma_unesc_scan_of_esc(h, l2 + (jstrq(dn) + l3));
                        assert(j2 == j1 + jstrq(h).len());
                        lemma_suffix_after(s@, j1 as int, jstrq(h), l2 + (jstrq(dn) + l3));
                        lemma_suffix_after(s@, j2 as int, l2, jstrq(dn) + l3);
                        assert(jstrq(dn) + l3 =~= esc(dn) + seq!['"'] + l3);
                        lemma_unesc_scan_of_esc(dn, l3);
                        assert(j4 == j3 + jstrq(dn).len());
                        lemma_suffix_after(s@, j3 as int, jstrq(dn), l3);
                    }
                }
            }
            return None;
        },
    };
    if end != s.unicode_len() {
        proof {
            assert forall|nb: Seq<u8>, dn: Seq<char>|
                nb.len() == 32 implies tail != l1 + jstrq(hex_of(nb)) + l2 + (jstrq(dn) + l3) by {
                if tail == l1 + jstrq(hex_of(nb)) + l2 + (jstrq(dn) + l3) {
                    let h = hex_of(nb);
                    assert(tail =~= l1 + (jstrq(h) + (l2 + (jstrq(dn) + l3))));
                    lemma_suffix_after(s@, i as int, l1, jstrq(h) + (l2 + (jstrq(dn) + l3)));
                    assert(jstrq(h) + (l2 + (jstrq(dn) + l3)) =~= esc(h) + seq!['"'] + (l2
                        + (jstrq(dn) + l3)));
                    lemma_unesc_scan_of_esc(h, l2 + (jstrq(dn) + l3));
                    assert(j2 == j1 + jstrq(h).len());
                    lemma_suffix_after(s@, j1 as int, jstrq(h), l2 + (jstrq(dn) + l3));
                    lemma_suffix_after(s@, j2 as int, l2, jstrq(dn) + l3);
                    assert(jstrq(dn) + l3 =~= esc(dn) + seq!['"'] + l3);
                    lemma_unesc_scan_of_esc(dn, l3);
                    assert(j4 == j3 + jstrq(dn).len());
                    lemma_suffix_after(s@, j3 as int, jstrq(dn), l3);
                    assert(l3 =~= l3 + Seq::<char>::empty());
                    lemma_suffix_after(s@, j4 as int, l3, Seq::<char>::empty());
                    assert(s@.skip(j4 + l3.len()).len() == 0);
                    assert(end == s@.len());
                }
            }
        }
        return None;
    }
    proof {
        let slen = s@.len() as int;
        lemma_read_piece(s@, j1 as int, j2 as int, hexs@);
        lemma_read_piece(s@, j3 as int, j4 as int, dname@);
        lemma_cat(s@, i as int, j1 as int, slen);
        lemma_cat(s@, j1 as int, j2 as int, slen);
        lemma_cat(s@, j2 as int, j3 as int, slen);
        lemma_cat(s@, j3 as int, j4 as int, slen);
        assert(s@.subrange(i as int, slen) =~= tail);
        assert(s@.subrange(i as int, j1 as int) == l1);
        assert(s@.subrange(j2 as int, j3 as int) == l2);
        assert(s@.subrange(j4 as int, slen) == l3);
        assert(hexs@ == hex_of(node.bytes@));
        assert(tail =~= l1 + jstrq(hex_of(node.bytes@)) + l2 + (jstrq(dname@) + l3));
    }
    Some((node, dname))
}


/// The payload of an `UpdateStatus` request, after the type field.
#[verifier::rlimit(100)]
fn parse_update_status_payload(s: &str, i: usize) -> (r: Option<(NodeId, UserStatus)>)
    requires
        i <= s@.len(),
    ensures
        r matches Some(p) ==> p.0.wf() && s@.skip(i as int) == ",\"data\":{\"nodeId\":\""@
            + jstrq(hex_of(p.0.bytes@)) + ",\"userStatus\":\""@ + (jstrq(status_json(p.1))
            + "}}"@),
        r is None ==> forall|nb: Seq<u8>, st: UserStatus|
            nb.len() == 32 ==> s@.skip(i as int) != ",\"data\":{\"nodeId\":\""@ + jstrq(
                hex_of(nb),
            ) + ",\"userStatus\":\""@ + (jstrq(status_json(st)) + "}}"@),
{
    let ghost tail = s@.skip(i as int);
    let ghost l1 = ",\"data\":{\"nodeId\":\""@;
    let ghost l2 = ",\"userStatus\":\""@;
    let ghost l3 = "}}"@;
    let j1 = match lit_matches(s, i, ",\"data\":{\"nodeId\":\"") {
        Some(j) => j,
        None => {
            proof {
                assert forall|nb: Seq<u8>, st: UserStatus|
                    nb.len() == 32 implies tail != l1 + jstrq(hex_of(nb)) + l2 + (jstrq(
                    status_json(st),
                ) + l3) by {
                    if tail == l1 + jstrq(hex_of(nb)) + l2 + (jstrq(status_json(st)) + l3) {
                        let h = hex_of(nb);
                        let w = status_json(st);
                        assert(tail =~= l1 + (jstrq(h) + (l2 + (jstrq(w) + l3))));
                        lemma_suffix_after(s@, i as int, l1, jstrq(h) + (l2 + (jstrq(w) + l3)));
                    }
                }
            }
            return None;
        },
    };
    let (hexs, j2) = match read_escaped(s, j1) {
        Some(p) => p,
        None => {
            proof {
                assert forall|nb: Seq<u8>, st: UserStatus|
                    nb.len() == 32 implies tail != l1 + jstrq(hex_of(nb)) + l2 + (jstrq(
                    status_json(st),
                ) + l3) by {
                    if tail == l1 + jstrq(hex_of(nb)) + l2 + (jstrq(status_json(st)) + l3) {
                        let h = hex_of(nb);
                        let w = status_json(st);
                        assert(tail =~= l1 + (jstrq(h) + (l2 + (jstrq(w) + l3))));
                        lemma_suffix_after(s@, i as int, l1, jstrq(h) + (l2 + (jstrq(w) + l3)));
                        assert(jstrq(h) + (l2 + (jstrq(w) + l3)) =~= esc(h) + seq!['"'] + (l2
                            + (jstrq(w) + l3)));
                        lemma_unesc_scan_of_esc(h, l2 + (jstrq(w) + l3));
                    }
                }
            }
            return None;
        },
    };
    let node = match NodeId::from_hex(hexs.as_str()) {
        Some(n) => n,
        None => {
            proof {
                assert forall|nb: Seq<u8>, st: UserStatus|
                    nb.len() == 32 implies tail != l1 + jstrq(hex_of(nb)) + l2 + (jstrq(
                    status_json(st),
                ) + l3) by {
                    if tail == l1 + jstrq(hex_of(nb)) + l2 + (jstrq(status_json(st)) + l3) {
                        let h = hex_of(nb);
                        let w = status_json(st);
                        assert(tail =~= l1 + (jstrq(h) + (l2 + (jstrq(w) + l3))));
                        lemma_suffix_after(s@, i as int, l1, jstrq(h) + (l2 + (jstrq(w) + l3)));
                        assert(jstrq(h) + (l2 + (jstrq(w) + l3)) =~= esc(h) + seq!['"'] + (l2
                            + (jstrq(w) + l3)));
                        lemma_unesc_scan_of_esc(h, l2 + (jstrq(w) + l3));
                        assert(hexs@ == h);
                    }
                }
            }
            return None;
        },
    };
    let j3 = match lit_matches(s, j2, ",\"userStatus\":\"") {
        Some(j) => j,
        None => {
            proof {
                assert forall|nb: Seq<u8>, st: UserStatus|
                    nb.len() == 32 implies tail != l1 + jstrq(hex_of(nb)) + l2 + (jstrq(
                    status_json(st),
                ) + l3) by {
                    if tail == l1 + jstrq(hex_of(nb)) + l2 + (jstrq(status_json(st)) + l3) {
                        let h = hex_of(nb);
                        let w = status_json(st);
                        assert(tail =~= l1 + (jstrq(h) + (l2 + (jstrq(w) + l3))));
                        lemma_suffix_after(s@, i as int, l1, jstrq(h) + (l2 + (jstrq(w) + l3)));
                        assert(jstrq(h) + (l2 + (jstrq(w) + l3)) =~= esc(h) + seq!['"'] + (l2
                            + (jstrq(w) + l3)));
                        lemma_unesc_scan_of_esc(h, l2 + (jstrq(w) + l3));
                        assert(j2 == j1 + jstrq(h).len());
                        lemma_suffix_after(s@, j1 as int, jstrq(h), l2 + (jstrq(w) + l3));
                        lemma_suffix_after(s@, j2 as int, l2, jstrq(w) + l3);
                    }
                }
            }
            return None;
        },
    };
    let (word, j4) = match read_escaped(s, j3) {
        Some(p) => p,
        None => {
            proof {
                assert forall|nb: Seq<u8>, st: UserStatus|
                    nb.len() == 32 implies tail != l1 + jstrq(hex_of(nb)) + l2 + (jstrq(
                    status_json(st),
                ) + l3) by {
                    if tail == l1 + jstrq(hex_of(nb)) + l2 + (jstrq(status_json(st)) + l3) {
                        let h = hex_of(nb);
                        let w = status_json(st);
                        assert(tail =~= l1 + (jstrq(h) + (l2 + (jstrq(w) + l3))));
                        lemma_suffix_after(s@, i as int, l1, jstrq(h) + (l2 + (jstrq(w) + l3)));
                        assert(jstrq(h) + (l2 + (jstrq(w) + l3)) =~= esc(h) + seq!['"'] + (l2
                            + (jstrq(w) + l3)));
                        lemma_unesc_scan_of_esc(h, l2 + (jstrq(w) + l3));
                        assert(j2 == j1 + jstrq(h).len());
                        lemma_suffix_after(s@, j1 as int, jstrq(h), l2 + (jstrq(w) + l3));
                        lemma_suffix_after(s@, j2 as int, l2, jstrq(w) + l3);
                        assert(jstrq(w) + l3 =~= esc(w) + seq!['"'] + l3);
                        lemma_unesc_scan_of_esc(w, l3);
                    }
                }
            }
            return None;
        },
    };
    let status: UserStatus = if str_eq(word.as_str(), "Online") {
        UserStatus::Online
    } else if str_eq(word.as_str(), "Away") {
        UserStatus::Away
    } else if str_eq(word.as_str(), "Offline") {
        UserStatus::Offline
    } else {
        proof {
            assert forall|nb: Seq<u8>, st: UserStatus|
                nb.len() == 32 implies tail != l1 + jstrq(hex_of(nb)) + l2 + (jstrq(
                status_json(st),
            ) + l3) by {
                if tail == l1 + jstrq(hex_of(nb)) + l2 + (jstrq(status_json(st)) + l3) {
                    let h = hex_of(nb);
                    let w = status_json(st);
                    assert(tail =~= l1 + (jstrq(h) + (l2 + (jstrq(w) + l3))));
                    lemma_suffix_after(s@, i as int, l1, jstrq(h) + (l2 + (jstrq(w) + l3)));
                    assert(jstrq(h) + (l2 + (jstrq(w) + l3)) =~= esc(h) + seq!['"'] + (l2
                        + (jstrq(w) + l3)));
                    lemma_unesc_scan_of_esc(h, l2 + (jstrq(w) + l3));
                    assert(j2 == j1 + jstrq(h).len());
                    lemma_suffix_after(s@, j1 as int, jstrq(h), l2 + (jstrq(w) + l3));
                    lemma_suffix_after(s@, j2 as int, l2, jstrq(w) + l3);
                    assert(jstrq(w) + l3 =~= esc(w) + seq!['"'] + l3);
                    lemma_unesc_scan_of_esc(w, l3);
                    assert(word@ == w);
                    match st {
                        UserStatus::Online => assert(word@ == "Online"@),
                        UserStatus::Away => assert(word@ == "Away"@),
                        UserStatus::Offline => assert(word@ == "Offline"@),
                    }
                }
            }
        }
        return None;
    };
    let end = match lit_matches(s, j4, "}}") {
        Some(j) => j,
        None => {
            proof {
                assert forall|nb: Seq<u8>, st: UserStatus|
                    nb.len() == 32 implies tail != l1 + jstrq(hex_of(nb)) + l2 + (jstrq(
                    status_json(st),
                ) + l3) by {
                    if tail == l1 + jstrq(hex_of(nb)) + l2 + (jstrq(status_json(st)) + l3) {
                        let h = hex_of(nb);
                        let w = status_json(st);
                        assert(tail =~= l1 + (jstrq(h) + (l2 + (jstrq(w) + l3))));
                        lemma_suffix_after(s@, i as int, l1, jstrq(h) + (l2 + (jstrq(w) + l3)));
                        assert(jstrq(h) + (l2 + (jstrq(w) + l3)) =~= esc(h) + seq!['"'] + (l2
                            + (jstrq(w) + l3)));
                        lemma_unesc_scan_of_esc(h, l2 + (jstrq(w) + l3));
                        assert(j2 == j1 + jstrq(h).len());
                        lemma_suffix_after(s@, j1 as int, jstrq(h), l2 + (jstrq(w) + l3));
                        lemma_suffix_after(s@, j2 as int, l2, jstrq(w) + l3);
                        assert(jstrq(w) + l3 =~= esc(w) + seq!['"'] + l3);
                        lemma_unesc_scan_of_esc(w, l3);
                        assert(j4 == j3 + jstrq(w).len());
                        lemma_suffix_after(s@, j3 as int, jstrq(w), l3);
                    }
                }
            }
            return None;
        },
    };
    if end != s.unicode_len() {
        proof {
            assert forall|nb: Seq<u8>, st: UserStatus|
                nb.len() == 32 implies tail != l1 + jstrq(hex_of(nb)) + l2 + (jstrq(
                status_json(st),
            ) + l3) by {
                if tail == l1 + jstrq(hex_of(nb)) + l2 + (jstrq(status_json(st)) + l3) {
                    let h = hex_of(nb);
                    let w = status_json(st);
                    assert(tail =~= l1 + (jstrq(h) + (l2 + (jstrq(w) + l3))));
                    lemma_suffix_after(s@, i as int, l1, jstrq(h) + (l2 + (jstrq(w) + l3)));
                    assert(jstrq(h) + (l2 + (jstrq(w) + l3)) =~= esc(h) + seq!['"'] + (l2
                        + (jstrq(w) + l3)));
                    lemma_unesc_scan_of_esc(h, l2 + (jstrq(w) + l3));
                    assert(j2 == j1 + jstrq(h).len());
                    lemma_suffix_after(s@, j1 as int, jstrq(h), l2 + (jstrq(w) + l3));
                    lemma_suffix_after(s@, j2 as int, l2, jstrq(w) + l3);
                    assert(jstrq(w) + l3 =~= esc(w) + seq!['"'] + l3);
                    lemma_unesc_scan_of_esc(w, l3);
                    assert(j4 == j3 + jstrq(w).len());
                    lemma_suffix_after(s@, j3 as int, jstrq(w), l3);
                    assert(l3 =~= l3 + Seq::<char>::empty());
                    lemma_suffix_after(s@, j4 as int, l3, Seq::<char>::empty());
                    assert(s@.skip(j4 + l3.len()).len() == 0);
                    assert(end == s@.len());
                }
            }
        }
        return None;
    }
    proof {
        let slen = s@.len() as int;
        lemma_read_piece(s@, j1 as int, j2 as int, hexs@);
        lemma_read_piece(s@, j3 as int, j4 as int, word@);
        lemma_cat(s@, i as int, j1 as int, slen);
        lemma_cat(s@, j1 as int, j2 as int, slen);
        lemma_cat(s@, j2 as int, j3 as int, slen);
        lemma_cat(s@, j3 as int, j4 as int, slen);
        assert(s@.subrange(i as int, slen) =~= tail);
        assert(s@.subrange(i as int, j1 as int) == l1);
        assert(s@.subrange(j2 as int, j3 as int) == l2);
        assert(s@.subrange(j4 as int, slen) == l3);
        assert(hexs@ == hex_of(node.bytes@));
        assert(word@ == status_json(status));
        assert(tail =~= l1 + jstrq(hex_of(node.bytes@)) + l2 + (jstrq(status_json(status))
            + l3));
    }
    Some((node, status))
}

/// The payload of a `SendMessage` request, after the type field.
fn parse_send_message_payload(s: &str, i: usize) -> (r: Option<(String, String)>)
    requires
        i <= s@.len(),
    ensures
        r matches Some(p) ==> s@.skip(i as int) == ",\"data\":{\"nodeId\":\""@ + jstrq(p.0@)
            + ",\"content\":\""@ + (jstrq(p.1@) + "}}"@),
        r is None ==> forall|dn: Seq<char>, ct: Seq<char>|
            s@.skip(i as int) != ",\"data\":{\"nodeId\":\""@ + jstrq(dn) + ",\"content\":\""@
                + (jstrq(ct) + "}}"@),
{
    let ghost tail = s@.skip(i as int);
    let ghost l1 = ",\"data\":{\"nodeId\":\""@;
    let ghost l2 = ",\"content\":\""@;
    let ghost l3 = "}}"@;
    let j1 = match lit_matches(s, i, ",\"data\":{\"nodeId\":\"") {
        Some(j) => j,
        None => {
            proof {
                assert forall|dn: Seq<char>, ct: Seq<char>|
                    tail != l1 + jstrq(dn) + l2 + (jstrq(ct) + l3) by {
                    if tail == l1 + jstrq(dn) + l2 + (jstrq(ct) + l3) {
                        assert(tail =~= l1 + (jstrq(dn) + (l2 + (jstrq(ct) + l3))));
                        lemma_suffix_after(s@, i as int, l1, jstrq(dn) + (l2 + (jstrq(ct) + l3)));
                    }
                }
            }
            return None;
        },
    };
    let (dname, j2) = match read_escaped(s, j1) {
        Some(p) => p,
        None => {
            proof {
                assert forall|dn: Seq<char>, ct: Seq<char>|
                    tail != l1 + jstrq(dn) + l2 + (jstrq(ct) + l3) by {
                    if tail == l1 + jstrq(dn) + l2 + (jstrq(ct) + l3) {
                        assert(tail =~= l1 + (jstrq(dn) + (l2 + (jstrq(ct) + l3))));
                        lemma_suffix_after(s@, i as int, l1, jstrq(dn) + (l2 + (jstrq(ct) + l3)));
                        assert(jstrq(dn) + (l2 + (jstrq(ct) + l3)) =~= esc(dn) + seq!['"'] + (l2
                            + (jstrq(ct) + l3)));
                        lemma_unesc_scan_of_esc(dn, l2 + (jstrq(ct) + l3));
                    }
                }
            }
            return None;
        },
    };
    let j3 = match lit_matches(s, j2, ",\"content\":\"") {
        Some(j) => j,
        None => {
            proof {
                assert forall|dn: Seq<char>, ct: Seq<char>|
                    tail != l1 + jstrq(dn) + l2 + (jstrq(ct) + l3) by {
                    if tail == l1 + jstrq(dn) + l2 + (jstrq(ct) + l3) {
                        assert(tail =~= l1 + (jstrq(dn) + (l2 + (jstrq(ct) + l3))));
                        lemma_suffix_after(s@, i as int, l1, jstrq(dn) + (l2 + (jstrq(ct) + l3)));
                        assert(jstrq(dn) + (l2 + (jstrq(ct) + l3)) =~= esc(dn) + seq!['"'] + (l2
                            + (jstrq(ct) + l3)));
                        lemma_unesc_scan_of_esc(dn, l2 + (jstrq(ct) + l3));
                        assert(j2 == j1 + jstrq(dn).len());
                        lemma_suffix_after(s@, j1 as int, jstrq(dn), l2 + (jstrq(ct) + l3));
                        lemma_suffix_after(s@, j2 as int, l2, jstrq(ct) + l3);
                    }
                }
            }
            return None;
        },
    };
    let (content, j4) = match read_escaped(s, j3) {
        Some(p) => p,
        None => {
            proof {
                assert forall|dn: Seq<char>, ct: Seq<char>|
                    tail != l1 + jstrq(dn) + l2 + (jstrq(ct) + l3) by {
                    if tail == l1 + jstrq(dn) + l2 + (jstrq(ct) + l3) {
                        assert(tail =~= l1 + (jstrq(dn) + (l2 + (jstrq(ct) + l3))));
                        lemma_suffix_after(s@, i as int, l1, jstrq(dn) + (l2 + (jstrq(ct) + l3)));
                        assert(jstrq(dn) + (l2 + (jstrq(ct) + l3)) =~= esc(dn) + seq!['"'] + (l2
                            + (jstrq(ct) + l3)));
                        lemma_unesc_scan_of_esc(dn, l2 + (jstrq(ct) + l3));
                        assert(j2 == j1 + jstrq(dn).len());
                        lemma_suffix_after(s@, j1 as int, jstrq(dn), l2 + (jstrq(ct) + l3));
                        lemma_suffix_after(s@, j2 as int, l2, jstrq(ct) + l3);
                        assert(jstrq(ct) + l3 =~= esc(ct) + seq!['"'] + l3);
                        lemma_unesc_scan_of_esc(ct, l3);
                    }
                }
            }
            return None;
        },
    };
    let end = match lit_matches(s, j4, "}}") {
        Some(j) => j,
        None => {
            proof {
                assert forall|dn: Seq<char>, ct: Seq<char>|
                    tail != l1 + jstrq(dn) + l2 + (jstrq(ct) + l3) by {
                    if tail == l1 + jstrq(dn) + l2 + (jstrq(ct) + l3) {
                        assert(tail =~= l1 + (jstrq(dn) + (l2 + (jstrq(ct) + l3))));
                        lemma_suffix_after(s@, i as int, l1, jstrq(dn) + (l2 + (jstrq(ct) + l3)));
                        assert(jstrq(dn) + (l2 + (jstrq(ct) + l3)) =~= esc(dn) + seq!['"'] + (l2
                            + (jstrq(ct) + l3)));
                        lemma_unesc_scan_of_esc(dn, l2 + (jstrq(ct) + l3));
                        assert(j2 == j1 + jstrq(dn).len());
                        lemma_suffix_after(s@, j1 as int, jstrq(dn), l2 + (jstrq(ct) + l3));
                        lemma_suffix_after(s@, j2 as int, l2, jstrq(ct) + l3);
                        assert(jstrq(ct) + l3 =~= esc(ct) + seq!['"'] + l3);
                        lemma_unesc_scan_of_esc(ct, l3);
                        assert(j4 == j3 + jstrq(ct).len());
                        lemma_suffix_after(s@, j3 as int, jstrq(ct), l3);
                    }
                }
            }
            return None;
        },
    };
    if end != s.unicode_len() {
        proof {
            assert forall|dn: Seq<char>, ct: Seq<char>|
                tail != l1 + jstrq(dn) + l2 + (jstrq(ct) + l3) by {
                if tail == l1 + jstrq(dn) + l2 + (jstrq(ct) + l3) {
                    assert(tail =~= l1 + (jstrq(dn) + (l2 + (jstrq(ct) + l3))));
                    lemma_suffix_after(s@, i as int, l1, jstrq(dn) + (l2 + (jstrq(ct) + l3)));
                    assert(jstrq(dn) + (l2 + (jstrq(ct) + l3)) =~= esc(dn) + seq!['"'] + (l2
                        + (jstrq(ct) + l3)));
                    lemma_unesc_scan_of_esc(dn, l2 + (jstrq(ct) + l3));
                    assert(j2 == j1 + jstrq(dn).len());
                    lemma_suffix_after(s@, j1 as int, jstrq(dn), l2 + (jstrq(ct) + l3));
                    lemma_suffix_after(s@, j2 as int, l2, jstrq(ct) + l3);
                    assert(jstrq(ct) + l3 =~= esc(ct) + seq!['"'] + l3);
                    lemma_unesc_scan_of_esc(ct, l3);
                    assert(j4 == j3 + jstrq(ct).len());
                    lemma_suffix_after(s@, j3 as int, jstrq(ct), l3);
                    assert(l3 =~= l3 + Seq::<char>::empty());
                    lemma_suffix_after(s@, j4 as int, l3, Seq::<char>::empty());
                    assert(s@.skip(j4 + l3.len()).len() == 0);
                    assert(end == s@.len());
                }
            }
        }
        return None;
    }
    proof {
        let slen = s@.len() as int;
        lemma_read_piece(s@, j1 as int, j2 as int, dname@);
        lemma_read_piece(s@, j3 as int, j4 as int, content@);
        lemma_cat(s@, i as int, j1 as int, slen);
        lemma_cat(s@, j1 as int, j2 as int, slen);
        lemma_cat(s@, j2 as int, j3 as int, slen);
        lemma_cat(s@, j3 as int, j4 as int, slen);
        assert(s@.subrange(i as int, slen) =~= tail);
        assert(s@.subrange(i as int, j1 as int) == l1);
        assert(s@.subrange(j2 as int, j3 as int) == l2);
        assert(s@.subrange(j4 as int, slen) == l3);
        assert(tail =~= l1 + jstrq(dname@) + l2 + (jstrq(content@) + l3));
    }
    Some((dname, content))
}

/// The tag word of a request.
spec fn spec_type_word(m: IPCMessage) -> Seq<char> {
    match m {
        IPCMessage::AddUser(_) => "AddUser"@,
        IPCMessage::UpdateStatus(_) => "UpdateStatus"@,
        IPCMessage::SendMessage(_) => "SendMessage"@,
        IPCMessage::GetUsers => "GetUsers"@,
        IPCMessage::GetNodeId => "GetNodeId"@,
        IPCMessage::Shutdown => "Shutdown"@,
    }
}

/// What follows the tag field in a request's rendering.
spec fn spec_json_rest(m: IPCMessage) -> Seq<char> {
    match m {
        IPCMessage::AddUser(msg) => ",\"data\":{\"nodeId\":\""@ + jstrq(
            hex_of(msg.node_id.bytes@),
        ) + ",\"displayName\":\""@ + (jstrq(msg.display_name@) + "}}"@),
        IPCMessage::UpdateStatus(msg) => ",\"data\":{\"nodeId\":\""@ + jstrq(
            hex_of(msg.node_id.bytes@),
        ) + ",\"userStatus\":\""@ + (jstrq(status_json(msg.user_status)) + "}}"@),
        IPCMessage::SendMessage(msg) => ",\"data\":{\"nodeId\":\""@ + jstrq(msg.display_name@)
            + ",\"content\":\""@ + (jstrq(msg.content@) + "}}"@),
        IPCMessage::GetUsers => "}"@,
        IPCMessage::GetNodeId => "}"@,
        IPCMessage::Shutdown => "}"@,
    }
}

/// Every rendering opens with the type field; reading the tag back
/// succeeds and leaves exactly the rest of the rendering.
proof fn lemma_req_shape(s: Seq<char>, m: IPCMessage)
    requires
        s == json_of_request(m),
    ensures
        "{\"type\":\""@.len() <= s.len(),
        s.subrange(0, "{\"type\":\""@.len() as int) == "{\"type\":\""@,
        unesc_scan(s.skip("{\"type\":\""@.len() as int)) == Some(
            (spec_type_word(m), jstrq(spec_type_word(m)).len() as int),
        ),
        s.skip(
            "{\"type\":\""@.len() as int + jstrq(spec_type_word(m)).len() as int,
        ) == spec_json_rest(m),
{
    let l = "{\"type\":\""@;
    let w = spec_type_word(m);
    let rest = spec_json_rest(m);
    assert(s =~= l + (jstrq(w) + rest)) by {
        match m {
            IPCMessage::AddUser(_) => {},
            IPCMessage::UpdateStatus(_) => {},
            IPCMessage::SendMessage(_) => {},
            IPCMessage::GetUsers => {},
            IPCMessage::GetNodeId => {},
            IPCMessage::Shutdown => {},
        }
    }
    assert(s.skip(0) =~= s);
    lemma_suffix_after(s, 0, l, jstrq(w) + rest);
    assert(jstrq(w) + rest =~= esc(w) + seq!['"'] + rest);
    lemma_unesc_scan_of_esc(w, rest);
    lemma_suffix_after(s, l.len() as int, jstrq(w), rest);
}

/// The six tag words are pairwise distinct.
proof fn lemma_type_words_distinct()
    ensures
        "AddUser"@ != "UpdateStatus"@,
        "AddUser"@ != "SendMessage"@,
        "AddUser"@ != "GetUsers"@,
        "AddUser"@ != "GetNodeId"@,
        "AddUser"@ != "Shutdown"@,
        "UpdateStatus"@ != "SendMessage"@,
        "UpdateStatus"@ != "GetUsers"@,
        "UpdateStatus"@ != "GetNodeId"@,
        "UpdateStatus"@ != "Shutdown"@,
        "SendMessage"@ != "GetUsers"@,
        "SendMessage"@ != "GetNodeId"@,
        "SendMessage"@ != "Shutdown"@,
        "GetUsers"@ != "GetNodeId"@,
        "GetUsers"@ != "Shutdown"@,
        "GetNodeId"@ != "Shutdown"@,
{
    reveal_strlit("AddUser");
    reveal_strlit("UpdateStatus");
    reveal_strlit("SendMessage");
    reveal_strlit("GetUsers");
    reveal_strlit("GetNodeId");
    reveal_strlit("Shutdown");
    assert("AddUser"@.len() == 7);
    assert("UpdateStatus"@.len() == 12);
    assert("SendMessage"@.len() == 11);
    assert("GetUsers"@.len() == 8);
    assert("GetNodeId"@.len() == 9);
    assert("Shutdown"@.len() == 8);
    assert("GetUsers"@ != "Shutdown"@) by {
        if "GetUsers"@ == "Shutdown"@ {
            assert("GetUsers"@[0] == 'G');
            assert("Shutdown"@[0] == 'S');
            assert(false);
        }
    }
}

/// Parses one request from the canonical JSON form of the grammar.
///
/// Exactly the renderings of well-formed requests are accepted, and an
/// accepted input parses to a request that renders back to it: together
/// with [`serialize_request`] this is the round trip of the command
/// grammar.
#[verifier::rlimit(100)]
pub fn parse_request(s: &str) -> (r: Option<IPCMessage>)
    ensures
        r matches Some(m) ==> req_wf(m) && json_of_request(m) == s@,
        (exists|m: IPCMessage| req_wf(m) && s@ == #[trigger] json_of_request(m)) ==> r is Some,
{
    let ghost ex = exists|m: IPCMessage| req_wf(m) && s@ == #[trigger] json_of_request(m);
    let j0 = match lit_matches(s, 0, "{\"type\":\"") {
        Some(j) => j,
        None => {
            proof {
                if ex {
                    let m = choose|m: IPCMessage|
                        req_wf(m) && s@ == #[trigger] json_of_request(m);
                    lemma_req_shape(s@, m);
                }
            }
            return None;
        },
    };
    let (ty, j1) = match read_escaped(s, j0) {
        Some(p) => p,
        None => {
            proof {
                if ex {
                    let m = choose|m: IPCMessage|
                        req_wf(m) && s@ == #[trigger] json_of_request(m);
                    lemma_req_shape(s@, m);
                }
            }
            return None;
        },
    };
    if str_eq(ty.as_str(), "AddUser") {
        match parse_add_user_payload(s, j1) {
            Some((node, dname)) => {
                let msg = IPCMessage::AddUser(AddUserMsg { node_id: node, display_name: dname });
                proof {
                    let slen = s@.len() as int;
                    lemma_read_piece(s@, j0 as int, j1 as int, ty@);
                    lemma_cat(s@, 0, j0 as int, slen);
                    lemma_cat(s@, j0 as int, j1 as int, slen);
                    assert(s@.subrange(0, slen) =~= s@);
                    assert(s@.subrange(j1 as int, slen) =~= s@.skip(j1 as int));
                    assert(s@ =~= json_of_request(msg));
                }
                Some(msg)
            },
            None => {
                proof {
                    if ex {
                        let m = choose|m: IPCMessage|
                            req_wf(m) && s@ == #[trigger] json_of_request(m);
                        lemma_req_shape(s@, m);
                        assert(ty@ == spec_type_word(m));
                        lemma_type_words_distinct();
                        match m {
                            IPCMessage::AddUser(msg) => {
                                assert(s@.skip(j1 as int) == spec_json_rest(m));
                                assert(msg.node_id.bytes@.len() == 32);
                                assert(false);
                            },
                            _ => assert(false),
                        }
                    }
                }
                None
            },
        }
    } else if str_eq(ty.as_str(), "UpdateStatus") {
        match parse_update_status_payload(s, j1) {
            Some((node, status)) => {
                let msg = IPCMessage::UpdateStatus(
                    UpdateStatusMsg { node_id: node, user_status: status },
                );
                proof {
                    let slen = s@.len() as int;
                    lemma_read_piece(s@, j0 as int, j1 as int, ty@);
                    lemma_cat(s@, 0, j0 as int, slen);
                    lemma_cat(s@, j0 as int, j1 as int, slen);
                    assert(s@.subrange(0, slen) =~= s@);
                    assert(s@.subrange(j1 as int, slen) =~= s@.skip(j1 as int));
                    assert(s@ =~= json_of_request(msg));
                }
                Some(msg)
            },
            None => {
                proof {
                    if ex {
                        let m = choose|m: IPCMessage|
                            req_wf(m) && s@ == #[trigger] json_of_request(m);
                        lemma_req_shape(s@, m);
                        assert(ty@ == spec_type_word(m));
                        lemma_type_words_distinct();
                        match m {
                            IPCMessage::UpdateStatus(msg) => {
                                assert(s@.skip(j1 as int) == spec_json_rest(m));
                                assert(msg.node_id.bytes@.len() == 32);
                                assert(false);
                            },
                            _ => assert(false),
                        }
                    }
                }
                None
            },
        }
    } else if str_eq(ty.as_str(), "SendMessage") {
        match parse_send_message_payload(s, j1) {
            Some((dname, content)) => {
                let msg = IPCMessage::SendMessage(
                    SendMessageMsg { display_name: dname, content },
                );
                proof {
                    let slen = s@.len() as int;
                    lemma_read_piece(s@, j0 as int, j1 as int, ty@);
                    lemma_cat(s@, 0, j0 as int, slen);
                    lemma_cat(s@, j0 as int, j1 as int, slen);
                    assert(s@.subrange(0, slen) =~= s@);
                    assert(s@.subrange(j1 as int, slen) =~= s@.skip(j1 as int));
                    assert(s@ =~= json_of_request(msg));
                }
                Some(msg)
            },
            None => {
                proof {
                    if ex {
                        let m = choose|m: IPCMessage|
                            req_wf(m) && s@ == #[trigger] json_of_request(m);
                        lemma_req_shape(s@, m);
                        assert(ty@ == spec_type_word(m));
                        lemma_type_words_distinct();
                        match m {
                            IPCMessage::SendMessage(msg) => {
                                assert(s@.skip(j1 as int) == spec_json_rest(m));
                                assert(false);
                            },
                            _ => assert(false),
                        }
                    }
                }
                None
            },
        }
    } else {
        let tag: Option<IPCMessage> = if str_eq(ty.as_str(), "GetUsers") {
            Some(IPCMessage::GetUsers)
        } else if str_eq(ty.as_str(), "GetNodeId") {
            Some(IPCMessage::GetNodeId)
        } else if str_eq(ty.as_str(), "Shutdown") {
            Some(IPCMessage::Shutdown)
        } else {
            None
        };
        match tag {
            Some(msg) => {
                let close = match lit_matches(s, j1, "}") {
                    Some(j) => j,
                    None => {
                        proof {
                            if ex {
                                let m = choose|m: IPCMessage|
                                    req_wf(m) && s@ == #[trigger] json_of_request(m);
                                lemma_req_shape(s@, m);
                                assert(ty@ == spec_type_word(m));
                                lemma_type_words_distinct();
                                assert(s@.skip(j1 as int) == spec_json_rest(m));
                                assert(spec_json_rest(m) == "}"@);
                                assert("}"@ =~= "}"@ + Seq::<char>::empty());
                                lemma_suffix_after(s@, j1 as int, "}"@, Seq::<char>::empty());
                                assert(false);
                            }
                        }
                        return None;
                    },
                };
                if close != s.unicode_len() {
                    proof {
                        if ex {
                            let m = choose|m: IPCMessage|
                                req_wf(m) && s@ == #[trigger] json_of_request(m);
                            lemma_req_shape(s@, m);
                            assert(ty@ == spec_type_word(m));
                            lemma_type_words_distinct();
                            assert(s@.skip(j1 as int) == spec_json_rest(m));
                            assert(spec_json_rest(m) == "}"@);
                            assert("}"@ =~= "}"@ + Seq::<char>::empty());
                            lemma_suffix_after(s@, j1 as int, "}"@, Seq::<char>::empty());
                            assert(s@.skip(j1 + "}"@.len()).len() == 0);
                            assert(false);
                        }
                    }
                    return None;
                }
                proof {
                    let slen = s@.len() as int;
                    lemma_read_piece(s@, j0 as int, j1 as int, ty@);
                    lemma_cat(s@, 0, j0 as int, slen);
                    lemma_cat(s@, j0 as int, j1 as int, slen);
                    assert(s@.subrange(0, slen) =~= s@);
                    assert(s@.subrange(j1 as int, slen) =~= s@.skip(j1 as int));
                    assert(s@.subrange(j1 as int, slen) == "}"@);
                    assert(s@ =~= json_of_request(msg));
                }
                Some(msg)
            },
            None => {
                proof {
                    if ex {
                        let m = choose|m: IPCMessage|
                            req_wf(m) && s@ == #[trigger] json_of_request(m);
                        lemma_req_shape(s@, m);
                        assert(ty@ == spec_type_word(m));
                        match m {
                            IPCMessage::AddUser(_) => assert(ty@ == "AddUser"@),
                            IPCMessage::UpdateStatus(_) => assert(ty@ == "UpdateStatus"@),
                            IPCMessage::SendMessage(_) => assert(ty@ == "SendMessage"@),
                            IPCMessage::GetUsers => assert(ty@ == "GetUsers"@),
                            IPCMessage::GetNodeId => assert(ty@ == "GetNodeId"@),
                            IPCMessage::Shutdown => assert(ty@ == "Shutdown"@),
                        }
                        assert(false);
                    }
                }
                None
            },
        }
    }
}

/// The decimal rendering of a nonnegative integer.
pub open spec fn dec_of(n: int) -> Seq<char>
    recommends
        n >= 0,
    decreases n,
{
    if n < 10 {
        seq![hex_digit(if 0 <= n < 10 { n as u8 } else { 0u8 })]
    } else {
        dec_of(n / 10) + seq![hex_digit((n % 10) as u8)]
    }
}

/// Appends the decimal rendering of `n`.
fn append_dec(out: &mut String, n: u32)
    ensures
        final(out)@ == old(out)@ + dec_of(n as int),
    decreases n,
{
    if n < 10 {
        out.push(hex_digit_char(n as u8));
        proof {
            assert(final(out)@ =~= old(out)@ + dec_of(n as int));
        }
    } else {
        append_dec(out, n / 10);
        out.push(hex_digit_char((n % 10) as u8));
        proof {
            assert(final(out)@ =~= old(out)@ + dec_of(n as int));
        }
    }
}

/// The JSON rendering of one user row.
pub open spec fn json_of_user(u: User) -> Seq<char> {
    "{\"user_id\":"@ + dec_of(u.user_id as int) + ",\"display_name\":\""@ + jstrq(
        u.display_name@,
    ) + ",\"node_id\":\""@ + jstrq(u.node_id@) + ",\"status\":\""@ + (jstrq(
        status_json(u.status),
    ) + "}"@)
}

/// The JSON rendering of a user list body, comma separated.
pub open spec fn json_of_users_inner(users: Seq<User>) -> Seq<char>
    decreases users.len(),
{
    if users.len() == 0 {
        Seq::<char>::empty()
    } else if users.len() == 1 {
        json_of_user(users[0])
    } else {
        json_of_users_inner(users.drop_last()) + seq![','] + json_of_user(users.last())
    }
}

/// The canonical JSON rendering of one response.
pub open spec fn json_of_response(r: IPCResponse) -> Seq<char> {
    match r {
        IPCResponse::SendUsers(resp) => "{\"type\":\"SendUsers\",\"data\":{\"users\":["@
            + json_of_users_inner(resp.users@) + "]}}"@,
        IPCResponse::SendUser(u) => "{\"type\":\"SendUser\",\"data\":"@ + json_of_user(u)
            + "}"@,
        IPCResponse::Error(e) => "{\"type\":\"Error\",\"data\":{\"errorMessage\":\""@ + (jstrq(
            e.error@,
        ) + "}}"@),
    }
}

/// A response whose row ids are nonnegative, as store-assigned ids are.
pub open spec fn resp_wf(r: IPCResponse) -> bool {
    match r {
        IPCResponse::SendUsers(resp) => forall|k: int|
            0 <= k < resp.users@.len() ==> (#[trigger] resp.users@[k].user_id) >= 0,
        IPCResponse::SendUser(u) => u.user_id >= 0,
        IPCResponse::Error(_) => true,
    }
}

/// Appends the JSON rendering of one user row.
fn append_user(out: &mut String, u: &User)
    requires
        u.user_id >= 0,
    ensures
        final(out)@ == old(out)@ + json_of_user(*u),
{
    let ghost prev = out@;
    out.append("{\"user_id\":");
    append_dec(out, u.user_id as u32);
    out.append(",\"display_name\":\"");
    append_jstrq(out, u.display_name.as_str());
    out.append(",\"node_id\":\"");
    append_jstrq(out, u.node_id.as_str());
    out.append(",\"status\":\"");
    let word = match u.status {
        UserStatus::Online => "Online",
        UserStatus::Away => "Away",
        UserStatus::Offline => "Offline",
    };
    append_jstrq(out, word);
    out.append("}");
    proof {
        assert(out@ =~= prev + json_of_user(*u));
    }
}

/// Serializes one response into the canonical JSON form of the grammar.
pub fn serialize_response(r: &IPCResponse) -> (out: String)
    requires
        resp_wf(*r),
    ensures
        out@ == json_of_response(*r),
{
    match r {
        IPCResponse::SendUsers(resp) => {
            let mut out = "{\"type\":\"SendUsers\",\"data\":{\"users\":[".to_owned();
            let ghost head = "{\"type\":\"SendUsers\",\"data\":{\"users\":["@;
            let mut i: usize = 0;
            while i < resp.users.len()
                invariant
                    0 <= i <= resp.users@.len(),
                    forall|k: int|
                        0 <= k < resp.users@.len() ==> (#[trigger] resp.users@[k].user_id) >= 0,
                    out@ == head + json_of_users_inner(resp.users@.take(i as int)),
                decreases resp.users@.len() - i,
            {
                if i > 0 {
                    out.push(',');
                }
                append_user(&mut out, &resp.users[i]);
                proof {
                    let taken = resp.users@.take(i + 1);
                    assert(taken.drop_last() =~= resp.users@.take(i as int));
                    assert(taken.last() == resp.users@[i as int]);
                    if i == 0 {
                        assert(json_of_users_inner(taken) == json_of_user(resp.users@[0]));
                        assert(out@ =~= head + json_of_users_inner(taken));
                    } else {
                        assert(json_of_users_inner(taken) == json_of_users_inner(
                            resp.users@.take(i as int),
                        ) + seq![','] + json_of_user(resp.users@[i as int]));
                        assert(out@ =~= head + json_of_users_inner(taken));
                    }
                }
                i = i + 1;
            }
            out.append("]}}");
            proof {
                assert(resp.users@.take(resp.users@.len() as int) =~= resp.users@);
                assert(out@ =~= json_of_response(*r));
            }
            out
        },
        IPCResponse::SendUser(u) => {
            let mut out = "{\"type\":\"SendUser\",\"data\":".to_owned();
            append_user(&mut out, u);
            out.append("}");
            proof {
                assert(out@ =~= json_of_response(*r));
            }
            out
        },
        IPCResponse::Error(e) => {
            let mut out = "{\"type\":\"Error\",\"data\":{\"errorMessage\":\"".to_owned();
            append_jstrq(&mut out, e.error.as_str());
            out.append("}}");
            proof {
                assert(out@ =~= json_of_response(*r));
            }
            out
        },
    }
}

/// Turns a transport request into the supervisor command it stands for.
/// `GetNodeId` is answered directly at the transport and reaches no
/// command loop: it maps to `None`.
pub fn to_run_message(m: IPCMessage) -> (r: Option<RunMessage>)
    ensures
        match m {
            IPCMessage::AddUser(msg) => r matches Some(RunMessage::Adduser(n, d)) && n.bytes@
                == msg.node_id.bytes@ && d@ == msg.display_name@,
            IPCMessage::UpdateStatus(msg) => r matches Some(RunMessage::UpdateStatus(n, s))
                && n.bytes@ == msg.node_id.bytes@ && s == msg.user_status,
            IPCMessage::SendMessage(msg) => r matches Some(RunMessage::SendMessage(d, c)) && d@
                == msg.display_name@ && c@ == msg.content@,
            IPCMessage::GetUsers => r matches Some(RunMessage::GetUsers),
            IPCMessage::GetNodeId => r is None,
            IPCMessage::Shutdown => r matches Some(RunMessage::Shutdown),
        },
{
    match m {
        IPCMessage::AddUser(msg) => Some(RunMessage::Adduser(msg.node_id, msg.display_name)),
        IPCMessage::UpdateStatus(msg) => Some(
            RunMessage::UpdateStatus(msg.node_id, msg.user_status),
        ),
        IPCMessage::SendMessage(msg) => Some(
            RunMessage::SendMessage(msg.display_name, msg.content),
        ),
        IPCMessage::GetUsers => Some(RunMessage::GetUsers),
        IPCMessage::GetNodeId => None,
        IPCMessage::Shutdown => Some(RunMessage::Shutdown),
    }
}

} // verus!
