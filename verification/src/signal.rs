use vstd::prelude::*;

use crate::codec::MAX_SIGNAL_PAYLOAD;
use crate::enums::RunMessage;
use crate::enums::SessionType;
use crate::enums::SignalMessage;
use crate::enums::UserStatus;
use crate::errors::ErrorKind;
use crate::types::NodeId;
use crate::types::NODE_ID_LEN;

verus! {

/// The mathematical content of a [`SignalMessage`].
pub enum SignalV {
    Online(Seq<u8>, UserStatus),
    SendConnection(SessionType),
}

impl View for SignalMessage {
    type V = SignalV;

    open spec fn view(&self) -> SignalV {
        match self {
            SignalMessage::Online(n, s) => SignalV::Online(n.bytes@, *s),
            SignalMessage::SendConnection(k) => SignalV::SendConnection(*k),
        }
    }
}

impl SignalV {
    /// An online notice carries a full-length identity.
    pub open spec fn wf(&self) -> bool {
        match self {
            SignalV::Online(b, _) => b.len() == NODE_ID_LEN,
            SignalV::SendConnection(_) => true,
        }
    }
}

impl SignalMessage {
    pub open spec fn wf(&self) -> bool {
        self@.wf()
    }
}

/// The wire byte of a user status.
pub open spec fn status_code(s: UserStatus) -> u8 {
    match s {
        UserStatus::Online => 0u8,
        UserStatus::Away => 1u8,
        UserStatus::Offline => 2u8,
    }
}

/// The status a wire byte stands for, if any.
pub open spec fn status_of_code(c: u8) -> Option<UserStatus> {
    if c == 0 {
        Some(UserStatus::Online)
    } else if c == 1 {
        Some(UserStatus::Away)
    } else if c == 2 {
        Some(UserStatus::Offline)
    } else {
        None
    }
}

/// The wire byte of a session kind.
pub open spec fn kind_code(k: SessionType) -> u8 {
    match k {
        SessionType::Idle => 0u8,
        SessionType::Chat => 1u8,
        SessionType::Video => 2u8,
        SessionType::Call => 3u8,
    }
}

/// The session kind a wire byte stands for, if any.
pub open spec fn kind_of_code(c: u8) -> Option<SessionType> {
    if c == 0 {
        Some(SessionType::Idle)
    } else if c == 1 {
        Some(SessionType::Chat)
    } else if c == 2 {
        Some(SessionType::Video)
    } else if c == 3 {
        Some(SessionType::Call)
    } else {
        None
    }
}

/// The stable binary encoding of a presence message.
pub open spec fn enc_signal(v: SignalV) -> Seq<u8> {
    match v {
        SignalV::Online(b, s) => seq![0u8] + b + seq![status_code(s)],
        SignalV::SendConnection(k) => seq![1u8, kind_code(k)],
    }
}

/// Decodes a presence message; anything but the two exact shapes is refused.
pub open spec fn dec_signal(b: Seq<u8>) -> Option<SignalV> {
    if b.len() < 1 || b.len() > MAX_SIGNAL_PAYLOAD {
        None
    } else if b[0] == 0 && b.len() == 2 + NODE_ID_LEN {
        match status_of_code(b[1 + NODE_ID_LEN]) {
            Some(s) => Some(SignalV::Online(b.subrange(1, 1 + NODE_ID_LEN as int), s)),
            None => None,
        }
    } else if b[0] == 1 && b.len() == 2 {
        match kind_of_code(b[1]) {
            Some(k) => Some(SignalV::SendConnection(k)),
            None => None,
        }
    } else {
        None
    }
}

/// Round trip of the presence codec: every well-formed presence message
/// decodes to exactly the value it was encoded from.
pub proof fn lemma_signal_round_trip(v: SignalV)
    requires
        v.wf(),
    ensures
        dec_signal(enc_signal(v)) == Some(v),
{
    let b = enc_signal(v);
    match v {
        SignalV::Online(bytes, s) => {
            assert(b.len() == 2 + NODE_ID_LEN);
            assert(b[0] == 0);
            assert(b[1 + NODE_ID_LEN] == status_code(s));
            assert(b.subrange(1, 1 + NODE_ID_LEN as int) =~= bytes);
        },
        SignalV::SendConnection(k) => {
            assert(b[0] == 1);
            assert(b[1] == kind_code(k));
        },
    }
}

/// Serializes a presence message; refused only when the identity inside an
/// online notice has the wrong length.
pub fn encode_signal(m: &SignalMessage) -> (r: Result<Vec<u8>, ErrorKind>)
    ensures
        r matches Ok(v) ==> m.wf() && v@ == enc_signal(m@),
        r matches Err(e) ==> e == ErrorKind::BadPayload && !m.wf(),
{
    match m {
        SignalMessage::Online(n, s) => {
            if n.bytes.len() != NODE_ID_LEN {
                return Err(ErrorKind::BadPayload);
            }
            let mut out: Vec<u8> = Vec::new();
            out.push(0u8);
            let mut i: usize = 0;
            while i < n.bytes.len()
                invariant
                    0 <= i <= n.bytes@.len(),
                    out@ == seq![0u8] + n.bytes@.take(i as int),
                decreases n.bytes@.len() - i,
            {
                out.push(n.bytes[i]);
                proof {
                    assert(seq![0u8] + n.bytes@.take(i + 1) =~= (seq![0u8] + n.bytes@.take(
                        i as int,
                    )).push(n.bytes@[i as int]));
                }
                i = i + 1;
            }
            let code: u8 = match s {
                UserStatus::Online => 0u8,
                UserStatus::Away => 1u8,
                UserStatus::Offline => 2u8,
            };
            out.push(code);
            proof {
                assert(n.bytes@.take(n.bytes@.len() as int) =~= n.bytes@);
                assert(out@ =~= enc_signal(m@));
            }
            Ok(out)
        },
        SignalMessage::SendConnection(k) => {
            let mut out: Vec<u8> = Vec::new();
            out.push(1u8);
            let code: u8 = match k {
                SessionType::Idle => 0u8,
                SessionType::Chat => 1u8,
                SessionType::Video => 2u8,
                SessionType::Call => 3u8,
            };
            out.push(code);
            proof {
                assert(out@ =~= enc_signal(m@));
            }
            Ok(out)
        },
    }
}

/// Parses a presence message from its wire bytes; accepts exactly what
/// [`dec_signal`] accepts.
pub fn decode_signal(bytes: &Vec<u8>) -> (r: Result<SignalMessage, ErrorKind>)
    ensures
        r matches Ok(m) ==> dec_signal(bytes@) == Some(m@) && m.wf(),
        r matches Err(e) ==> e == ErrorKind::BadPayload && dec_signal(bytes@) is None,
{
    if bytes.len() < 1 || bytes.len() > MAX_SIGNAL_PAYLOAD {
        return Err(ErrorKind::BadPayload);
    }
    let tag = bytes[0];
    if tag == 0 && bytes.len() == 2 + NODE_ID_LEN {
        let mut id: Vec<u8> = Vec::new();
        let mut i: usize = 1;
        while i < 1 + NODE_ID_LEN
            invariant
                1 <= i <= 1 + NODE_ID_LEN,
                bytes@.len() == 2 + NODE_ID_LEN,
                id@ == bytes@.subrange(1, i as int),
            decreases 1 + NODE_ID_LEN - i,
        {
            id.push(bytes[i]);
            proof {
                assert(bytes@.subrange(1, i + 1) =~= bytes@.subrange(1, i as int).push(
                    bytes@[i as int],
                ));
            }
            i = i + 1;
        }
        let sc = bytes[1 + NODE_ID_LEN];
        let status: UserStatus = if sc == 0 {
            UserStatus::Online
        } else if sc == 1 {
            UserStatus::Away
        } else if sc == 2 {
            UserStatus::Offline
        } else {
            return Err(ErrorKind::BadPayload);
        };
        let node = NodeId { bytes: id };
        Ok(SignalMessage::Online(node, status))
    } else if tag == 1 && bytes.len() == 2 {
        let kc = bytes[1];
        let kind: SessionType = if kc == 0 {
            SessionType::Idle
        } else if kc == 1 {
            SessionType::Chat
        } else if kc == 2 {
            SessionType::Video
        } else if kc == 3 {
            SessionType::Call
        } else {
            return Err(ErrorKind::BadPayload);
        };
        Ok(SignalMessage::SendConnection(kind))
    } else {
        Err(ErrorKind::BadPayload)
    }
}

/// Dispatches an inbound presence message into the supervisor's command
/// stream: a connection request becomes `RecvConn` of the same kind, an
/// online notice becomes `UpdateStatus` for the sender.
pub fn signal_to_run(m: SignalMessage) -> (r: RunMessage)
    ensures
        match m {
            SignalMessage::SendConnection(k) => r matches RunMessage::RecvConn(k2) && k2 == k,
            SignalMessage::Online(ref n, s) => r matches RunMessage::UpdateStatus(n2, s2)
                && n2.bytes@ == n.bytes@ && s2 == s,
        },
{
    match m {
        SignalMessage::SendConnection(k) => RunMessage::RecvConn(k),
        SignalMessage::Online(n, s) => RunMessage::UpdateStatus(n, s),
    }
}

} // verus!
