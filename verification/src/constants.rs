use vstd::prelude::*;

verus! {

/// Seconds between handshake transmit attempts.
pub const SEND_SESSION_DELAY: u64 = 2;

/// Total transmit budget for one handshake payload, in seconds.
pub const SEND_SESSION_TIMEOUT: u64 = 60;

/// Seconds between text-message delivery attempts.
pub const SEND_TEXT_MESSAGE_DELAY: u64 = 1;

/// Total best-effort delivery budget for one text message, in seconds.
pub const SEND_TEXT_MESSAGE_TIMEOUT: u64 = 10;

} // verus!
