use vstd::prelude::*;

verus! {

/// The kinds of failure the messaging core distinguishes.
///
/// Every fallible operation of this crate reports one of these kinds, and its
/// contract says exactly on which inputs each kind is returned.
#[derive(Clone, Copy, Debug, PartialEq, Eq, Structural)]
pub enum ErrorKind {
    /// The overlay could not route to the peer.
    Unreachable,
    /// A retry budget was exhausted.
    Timeout,
    /// A malformed signaling payload was received.
    BadPayload,
    /// A single-assignment slot was written twice.
    AlreadySet,
    /// A handshake step needs the remote identity, which is not set yet.
    NoRemote,
    /// A data-channel operation was attempted before the channel existed.
    NoChannel,
    /// The underlying transport reported a failure on write.
    SendError,
    /// A display name or node id is unknown to the store.
    NotFound,
    /// A store write or query failed.
    StoreError,
    /// A startup or bootstrap step failed.
    Fatal,
    /// The requested session kind is reserved but not implemented.
    NotImplemented,
}

/// The fixed description of each error kind, as the command transport
/// reports it.
pub open spec fn spec_error_message(e: ErrorKind) -> Seq<char> {
    match e {
        ErrorKind::Unreachable => "unreachable"@,
        ErrorKind::Timeout => "timeout"@,
        ErrorKind::BadPayload => "bad payload"@,
        ErrorKind::AlreadySet => "already set"@,
        ErrorKind::NoRemote => "no remote"@,
        ErrorKind::NoChannel => "no channel"@,
        ErrorKind::SendError => "send error"@,
        ErrorKind::NotFound => "not found"@,
        ErrorKind::StoreError => "store error"@,
        ErrorKind::Fatal => "fatal"@,
        ErrorKind::NotImplemented => "not implemented"@,
    }
}

impl ErrorKind {
    /// Renders the error kind for the command transport.
    pub fn message(&self) -> (r: String)
        ensures
            r@ == spec_error_message(*self),
    {
        match self {
            ErrorKind::Unreachable => "unreachable".to_owned(),
            ErrorKind::Timeout => "timeout".to_owned(),
            ErrorKind::BadPayload => "bad payload".to_owned(),
            ErrorKind::AlreadySet => "already set".to_owned(),
            ErrorKind::NoRemote => "no remote".to_owned(),
            ErrorKind::NoChannel => "no channel".to_owned(),
            ErrorKind::SendError => "send error".to_owned(),
            ErrorKind::NotFound => "not found".to_owned(),
            ErrorKind::StoreError => "store error".to_owned(),
            ErrorKind::Fatal => "fatal".to_owned(),
            ErrorKind::NotImplemented => "not implemented".to_owned(),
        }
    }
}

/// An operation exceeded its time budget.
pub struct TimeoutError {
    pub operation: String,
    pub duration_secs: u64,
}

impl TimeoutError {
    pub fn new(operation: String, duration_secs: u64) -> (r: TimeoutError)
        ensures
            r.operation@ == operation@,
            r.duration_secs == duration_secs,
    {
        TimeoutError { operation, duration_secs }
    }

    /// A human-readable description; the operation name is quoted verbatim.
    pub fn message(&self) -> (r: String)
        ensures
            r@ == "Operation '"@ + self.operation@ + "' timed out"@,
    {
        let mut s = "Operation '".to_owned();
        s.append(self.operation.as_str());
        s.append("' timed out");
        s
    }
}

/// A string did not name any variant of an enum.
#[derive(Clone, Copy, Debug, PartialEq, Eq, Structural)]
pub enum ParseEnumError {
    InvalidVariant,
}

impl ParseEnumError {
    pub fn message(&self) -> (r: String)
        ensures
            r@ == "Invalid enum variant"@,
    {
        "Invalid enum variant".to_owned()
    }
}

} // verus!
