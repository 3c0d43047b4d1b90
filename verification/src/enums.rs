use vstd::prelude::*;

use crate::errors::ParseEnumError;
use crate::strutil::str_eq;
use crate::types::NodeId;
use crate::types::TextMessage;

verus! {

broadcast use vstd::string::group_string_axioms;

/// The kind of session a connection carries.  Only `Chat` is fully
/// specified; the other kinds are reserved and their handlers report
/// `NotImplemented`.
#[derive(Clone, Copy, Debug, PartialEq, Eq, Structural)]
pub enum SessionType {
    Idle,
    Chat,
    Video,
    Call,
}

/// The presence of a user as recorded in the store.
#[derive(Clone, Copy, Debug, PartialEq, Eq, Structural)]
pub enum UserStatus {
    Online,
    Away,
    Offline,
}

/// The lowercase display form of a status, as the store records it.
pub open spec fn spec_status_str(s: UserStatus) -> Seq<char> {
    match s {
        UserStatus::Online => "online"@,
        UserStatus::Away => "away"@,
        UserStatus::Offline => "offline"@,
    }
}

impl UserStatus {
    /// Renders the status in its lowercase display form.
    pub fn status_str(&self) -> (r: String)
        ensures
            r@ == spec_status_str(*self),
    {
        match self {
            UserStatus::Online => "online".to_owned(),
            UserStatus::Away => "away".to_owned(),
            UserStatus::Offline => "offline".to_owned(),
        }
    }

    /// Parses the lowercase display form; any other string is rejected.
    pub fn parse(s: &str) -> (r: Result<UserStatus, ParseEnumError>)
        ensures
            s@ == spec_status_str(UserStatus::Online) ==> r == Ok::<UserStatus, ParseEnumError>(
                UserStatus::Online,
            ),
            s@ == spec_status_str(UserStatus::Away) ==> r == Ok::<UserStatus, ParseEnumError>(
                UserStatus::Away,
            ),
            s@ == spec_status_str(UserStatus::Offline) ==> r == Ok::<UserStatus, ParseEnumError>(
                UserStatus::Offline,
            ),
            r matches Ok(v) ==> s@ == spec_status_str(v),
            r matches Err(e) ==> e == ParseEnumError::InvalidVariant && (forall|v: UserStatus|
                s@ != spec_status_str(v)),
    {
        proof {
            reveal_strlit("online");
            reveal_strlit("away");
            reveal_strlit("offline");
            assert("online"@.len() == 6);
            assert("away"@.len() == 4);
            assert("offline"@.len() == 7);
        }
        if str_eq(s, "online") {
            Ok(UserStatus::Online)
        } else if str_eq(s, "away") {
            Ok(UserStatus::Away)
        } else if str_eq(s, "offline") {
            Ok(UserStatus::Offline)
        } else {
            proof {
                assert forall|v: UserStatus| s@ != spec_status_str(v) by {
                    match v {
                        UserStatus::Online => assert(s@ != "online"@),
                        UserStatus::Away => assert(s@ != "away"@),
                        UserStatus::Offline => assert(s@ != "offline"@),
                    }
                }
            }
            Err(ParseEnumError::InvalidVariant)
        }
    }
}

/// Which side of the offer/answer handshake a driver plays.
#[derive(Clone, Copy, Debug, PartialEq, Eq, Structural)]
pub enum ConnType {
    Offerer,
    Answerer,
}

/// The stages a signaling payload can belong to.
#[derive(Clone, Copy, Debug, PartialEq, Eq, Structural)]
pub enum SignalMessageType {
    AddIceCandidate,
    OfferCreated,
    AnswerCreated,
}

/// The kinds of runtime notification a presence message can trigger.
#[derive(Clone, Copy, Debug, PartialEq, Eq, Structural)]
pub enum RunMessageType {
    Online,
    SendMessage,
    AddUser,
    ReceiveMessage,
}

/// The state of the underlying peer connection, as its monitor reports it.
#[derive(Clone, Copy, Debug, PartialEq, Eq, Structural)]
pub enum PcState {
    Unspecified,
    New,
    Connecting,
    Connected,
    Disconnected,
    Failed,
    Closed,
}

impl PcState {
    /// Whether this state ends the connection for good.
    pub open spec fn spec_is_terminal(&self) -> bool {
        *self == PcState::Failed || *self == PcState::Closed
    }

    pub fn is_terminal(&self) -> (r: bool)
        ensures
            r == self.spec_is_terminal(),
    {
        match self {
            PcState::Failed => true,
            PcState::Closed => true,
            _ => false,
        }
    }
}

/// A presence notification sent to one specific peer.
#[derive(Debug)]
pub enum SignalMessage {
    /// An unsolicited status broadcast carrying the sender's identity.
    Online(NodeId, UserStatus),
    /// A request that the remote accept an incoming connection of this kind.
    SendConnection(SessionType),
}

/// A command consumed by the supervisor's run loop.
#[derive(Debug)]
pub enum RunMessage {
    UpdateStatus(NodeId, UserStatus),
    Adduser(NodeId, String),
    InitConn(SessionType, String),
    RecvConn(SessionType),
    GetUsers,
    Shutdown,
    SendMessage(String, String),
    GetUser(String),
}

/// One event fanned in from a connection: an inbound text message or a
/// state transition of the underlying peer connection.
#[derive(Debug)]
pub enum MessageType {
    Message(TextMessage),
    ConnectionState(PcState),
}

} // verus!
