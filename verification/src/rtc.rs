use vstd::arithmetic::mul::lemma_mul_nonnegative;
use vstd::prelude::*;

use crate::codec::Session;
use crate::codec::SessionV;
use crate::enums::ConnType;
use crate::enums::PcState;
use crate::errors::ErrorKind;
use crate::strutil::copy_bytes;
use crate::strutil::copy_opt_bytes;
use crate::types::NodeId;

verus! {

/// The per-connection driver: the state machine that walks one peer
/// connection through offer/answer negotiation, ICE trickling, data-channel
/// open and teardown.  The media stack performs the work; this type decides
/// each step and is the single owner of the connection's signaling state.
pub struct Connection {
    pub conn_type: ConnType,
    pub remote_node_id: Option<NodeId>,
    pub local_description: Option<Vec<u8>>,
    pub remote_description: Option<Vec<u8>>,
    /// Local ICE candidates observed so far, kept for diagnostics.
    pub candidates: Vec<Vec<u8>>,
    /// Remote ICE candidates applied so far.
    pub remote_candidates: Vec<Vec<u8>>,
    pub has_data_channel: bool,
    pub data_channel_open: bool,
    pub state: PcState,
    /// Every candidate-bearing session this driver has handed to the
    /// session exchange for transmission.
    pub ice_sent: Ghost<Seq<SessionV>>,
}

/// The views of a list of byte blobs.
pub open spec fn byte_views(s: Seq<Vec<u8>>) -> Seq<Seq<u8>> {
    s.map_values(|v: Vec<u8>| v@)
}

impl Connection {
    /// The driver's invariant: the remote identity, once there, is a full
    /// key; no candidate-bearing session has ever been handed out without
    /// the remote identity set; and every handed-out session carried a
    /// candidate.
    pub open spec fn wf(&self) -> bool {
        &&& (self.remote_node_id matches Some(n) ==> n.wf())
        &&& (self.ice_sent@.len() > 0 ==> self.remote_node_id is Some)
        &&& (forall|i: int|
            0 <= i < self.ice_sent@.len() ==> (#[trigger] self.ice_sent@[i]).ice_candidate
                is Some)
    }

    /// A fresh driver for one connection, with nothing negotiated yet.
    pub fn new(conn_type: ConnType) -> (r: Connection)
        ensures
            r.wf(),
            r.conn_type == conn_type,
            r.remote_node_id is None,
            r.local_description is None,
            r.remote_description is None,
            r.candidates@.len() == 0,
            r.remote_candidates@.len() == 0,
            !r.has_data_channel,
            !r.data_channel_open,
            r.state == PcState::New,
            r.ice_sent@.len() == 0,
    {
        Connection {
            conn_type,
            remote_node_id: None,
            local_description: None,
            remote_description: None,
            candidates: Vec::new(),
            remote_candidates: Vec::new(),
            has_data_channel: false,
            data_channel_open: false,
            state: PcState::New,
            ice_sent: Ghost(Seq::empty()),
        }
    }

    /// Writes the remote identity into its single-assignment slot.  A
    /// second write is refused with `AlreadySet` and changes nothing.
    pub fn set_remote_node_id(&mut self, remote_node_id: NodeId) -> (r: Result<(), ErrorKind>)
        requires
            old(self).wf(),
            remote_node_id.wf(),
        ensures
            final(self).wf(),
            old(self).remote_node_id is Some ==> (r matches Err(e) && e == ErrorKind::AlreadySet
                && *final(self) == *old(self)),
            old(self).remote_node_id is None ==> (r is Ok && *final(self) == (Connection {
                remote_node_id: Some(remote_node_id),
                ..*old(self)
            })),
    {
        if self.remote_node_id.is_some() {
            return Err(ErrorKind::AlreadySet);
        }
        self.remote_node_id = Some(remote_node_id);
        Ok(())
    }

    /// Records the remote identity learned implicitly from the first
    /// inbound stream; keeps an already-set identity.
    pub fn note_remote_node_id(&mut self, remote_node_id: NodeId)
        requires
            old(self).wf(),
            remote_node_id.wf(),
        ensures
            final(self).wf(),
            old(self).remote_node_id is Some ==> *final(self) == *old(self),
            old(self).remote_node_id is None ==> *final(self) == (Connection {
                remote_node_id: Some(remote_node_id),
                ..*old(self)
            }),
    {
        if self.remote_node_id.is_none() {
            self.remote_node_id = Some(remote_node_id);
        }
    }

    /// A copy of the remote identity, if it is known yet.
    pub fn get_remote_node_id(&self) -> (r: Option<NodeId>)
        ensures
            match self.remote_node_id {
                Some(ref n) => r matches Some(m) && m.bytes@ == n.bytes@,
                None => r is None,
            },
    {
        match &self.remote_node_id {
            Some(n) => Some(n.duplicate()),
            None => None,
        }
    }

    /// The offerer creates the data channel before making its offer.
    pub fn create_data_channel(&mut self)
        requires
            old(self).wf(),
            old(self).conn_type == ConnType::Offerer,
        ensures
            final(self).wf(),
            *final(self) == (Connection { has_data_channel: true, ..*old(self) }),
    {
        self.has_data_channel = true;
    }

    /// The answerer installs the handler that adopts the channel the
    /// offerer created.
    pub fn register_data_channel(&mut self)
        requires
            old(self).wf(),
            old(self).conn_type == ConnType::Answerer,
        ensures
            final(self).wf(),
            *final(self) == (Connection { has_data_channel: true, ..*old(self) }),
    {
        self.has_data_channel = true;
    }

    /// The data channel reported open, in either direction.
    pub fn on_data_channel_open(&mut self)
        requires
            old(self).wf(),
        ensures
            final(self).wf(),
            *final(self) == (Connection { data_channel_open: true, ..*old(self) }),
    {
        self.data_channel_open = true;
    }

    /// Whether the sleep for the open data channel would return yet.
    pub fn wait_for_data_channel(&self) -> (r: bool)
        ensures
            r == self.data_channel_open,
    {
        self.data_channel_open
    }

    /// Records one locally gathered candidate, for diagnostics.
    pub fn add_ice_candidate(&mut self, candidate: Vec<u8>)
        requires
            old(self).wf(),
        ensures
            final(self).wf(),
            *final(self) == (Connection {
                candidates: final(self).candidates,
                ..*old(self)
            }),
            final(self).candidates@ == old(self).candidates@.push(candidate),
    {
        self.candidates.push(candidate);
    }

    /// One firing of the ICE callback: record the candidate, and when the
    /// remote identity is known, hand back the session to transmit — the
    /// candidate together with a snapshot of the current local description.
    /// Before the identity is known nothing is handed out.
    pub fn on_local_ice_candidate(&mut self, candidate: Vec<u8>) -> (r: Option<Session>)
        requires
            old(self).wf(),
        ensures
            final(self).wf(),
            byte_views(final(self).candidates@) == byte_views(old(self).candidates@).push(
                candidate@,
            ),
            final(self).conn_type == old(self).conn_type,
            final(self).remote_node_id == old(self).remote_node_id,
            final(self).local_description == old(self).local_description,
            final(self).remote_description == old(self).remote_description,
            final(self).remote_candidates == old(self).remote_candidates,
            final(self).has_data_channel == old(self).has_data_channel,
            final(self).data_channel_open == old(self).data_channel_open,
            final(self).state == old(self).state,
            r is Some <==> old(self).remote_node_id is Some,
            r matches Some(s) ==> {
                &&& s@.ice_candidate == Some(candidate@)
                &&& s@.sdp == (match old(self).local_description {
                    Some(ref b) => Some(b@),
                    None => None::<Seq<u8>>,
                })
                &&& final(self).ice_sent@ == old(self).ice_sent@.push(s@)
            },
            r is None ==> final(self).ice_sent@ == old(self).ice_sent@,
    {
        let transmit = self.remote_node_id.is_some();
        let ghost before = self.candidates@;
        self.candidates.push(copy_bytes(&candidate));
        proof {
            assert(byte_views(self.candidates@) =~= byte_views(before).push(candidate@));
        }
        if transmit {
            let session = Session {
                ice_candidate: Some(candidate),
                sdp: copy_opt_bytes(&self.local_description),
            };
            proof {
                self.ice_sent@ = self.ice_sent@.push(session@);
            }
            Some(session)
        } else {
            None
        }
    }

    /// Builds the offer: installs the local description and hands back the
    /// session to transmit.  Without a remote identity there is nowhere to
    /// send it: `NoRemote`, and nothing changes.
    pub fn offer(&mut self, local_sdp: Vec<u8>) -> (r: Result<Session, ErrorKind>)
        requires
            old(self).wf(),
            old(self).conn_type == ConnType::Offerer,
        ensures
            final(self).wf(),
            old(self).remote_node_id is None ==> (r matches Err(e) && e == ErrorKind::NoRemote
                && *final(self) == *old(self)),
            old(self).remote_node_id is Some ==> {
                &&& *final(self) == (Connection {
                    local_description: Some(local_sdp),
                    ..*old(self)
                })
                &&& r matches Ok(s) && s@.sdp == Some(local_sdp@) && s@.ice_candidate is None
            },
    {
        if self.remote_node_id.is_none() {
            return Err(ErrorKind::NoRemote);
        }
        let session = Session { ice_candidate: None, sdp: Some(copy_bytes(&local_sdp)) };
        self.local_description = Some(local_sdp);
        Ok(session)
    }

    /// Builds the answer once the remote offer has been applied: installs
    /// the local description and hands back the session to transmit.
    pub fn answer(&mut self, local_sdp: Vec<u8>) -> (r: Result<Session, ErrorKind>)
        requires
            old(self).wf(),
            old(self).conn_type == ConnType::Answerer,
            old(self).remote_description is Some,
        ensures
            final(self).wf(),
            old(self).remote_node_id is None ==> (r matches Err(e) && e == ErrorKind::NoRemote
                && *final(self) == *old(self)),
            old(self).remote_node_id is Some ==> {
                &&& *final(self) == (Connection {
                    local_description: Some(local_sdp),
                    ..*old(self)
                })
                &&& r matches Ok(s) && s@.sdp == Some(local_sdp@) && s@.ice_candidate is None
            },
    {
        if self.remote_node_id.is_none() {
            return Err(ErrorKind::NoRemote);
        }
        let session = Session { ice_candidate: None, sdp: Some(copy_bytes(&local_sdp)) };
        self.local_description = Some(local_sdp);
        Ok(session)
    }

    /// Applies one inbound session: an SDP replaces the remote description
    /// (so applying the same SDP again leaves the state as it was), and a
    /// candidate is appended to the remote candidate list.
    pub fn apply_remote_session(&mut self, session: &Session)
        requires
            old(self).wf(),
        ensures
            final(self).wf(),
            final(self).conn_type == old(self).conn_type,
            final(self).remote_node_id == old(self).remote_node_id,
            final(self).local_description == old(self).local_description,
            final(self).candidates == old(self).candidates,
            final(self).has_data_channel == old(self).has_data_channel,
            final(self).data_channel_open == old(self).data_channel_open,
            final(self).state == old(self).state,
            final(self).ice_sent@ == old(self).ice_sent@,
            match session@.sdp {
                Some(b) => final(self).remote_description matches Some(v) && v@ == b,
                None => final(self).remote_description == old(self).remote_description,
            },
            match session@.ice_candidate {
                Some(c) => byte_views(final(self).remote_candidates@) == byte_views(
                    old(self).remote_candidates@,
                ).push(c),
                None => final(self).remote_candidates == old(self).remote_candidates,
            },
    {
        match &session.sdp {
            Some(b) => {
                self.remote_description = Some(copy_bytes(b));
            },
            None => {},
        }
        match &session.ice_candidate {
            Some(c) => {
                let ghost before = self.remote_candidates@;
                self.remote_candidates.push(copy_bytes(c));
                proof {
                    assert(byte_views(self.remote_candidates@) =~= byte_views(before).push(c@));
                }
            },
            None => {},
        }
    }

    /// One transition reported by the connection monitor; the result says
    /// whether the connection is now gone for good.
    pub fn on_state_change(&mut self, state: PcState) -> (terminal: bool)
        requires
            old(self).wf(),
        ensures
            final(self).wf(),
            *final(self) == (Connection { state: state, ..*old(self) }),
            terminal == state.spec_is_terminal(),
    {
        self.state = state;
        state.is_terminal()
    }

    /// Everything `Connected` requires: both descriptions installed, the
    /// data channel open, and the peer connection reporting `Connected`.
    pub open spec fn spec_connected(&self) -> bool {
        &&& self.local_description is Some
        &&& self.remote_description is Some
        &&& self.data_channel_open
        &&& self.state == PcState::Connected
    }

    pub fn is_connected(&self) -> (r: bool)
        ensures
            r == self.spec_connected(),
    {
        self.local_description.is_some() && self.remote_description.is_some()
            && self.data_channel_open && matches!(self.state, PcState::Connected)
    }

    /// Hands back the frame to put on the data channel, or `NoChannel` when
    /// no channel has been created or adopted yet.
    pub fn send_dc_message(&self, message: String) -> (r: Result<String, ErrorKind>)
        ensures
            self.has_data_channel ==> (r matches Ok(m) && m@ == message@),
            !self.has_data_channel ==> (r matches Err(e) && e == ErrorKind::NoChannel),
    {
        if self.has_data_channel {
            Ok(message)
        } else {
            Err(ErrorKind::NoChannel)
        }
    }
}

/// A driver never hands out an ICE candidate before its remote identity is
/// set: whenever any candidate-bearing session has been passed to the
/// exchange, the single-assignment identity slot is already filled.
pub proof fn lemma_ice_only_after_remote_id(c: &Connection)
    requires
        c.wf(),
    ensures
        c.ice_sent@.len() > 0 ==> c.remote_node_id is Some,
{
}

/// Whether attempt `k` (zero-based) still falls inside the transmit budget:
/// the first attempt is always made, and attempt `k` starts after `k` flat
/// delays.
pub open spec fn attempt_in_budget(k: int, timeout_secs: u64, delay_secs: u64) -> bool {
    k == 0 || k * delay_secs < timeout_secs
}

/// Whether a transmit loop with the given per-attempt outcomes succeeds
/// within its budget.
pub open spec fn spec_retry_succeeds(attempts: Seq<bool>, timeout_secs: u64, delay_secs: u64) -> bool {
    exists|k: int|
        0 <= k < attempts.len() && attempt_in_budget(k, timeout_secs, delay_secs) && attempts[k]
}

/// After a failed attempt the loop retries only while the elapsed time is
/// still under the transmit budget.
#[derive(Clone, Copy, Debug, PartialEq, Eq, Structural)]
pub enum RetryDecision {
    Retry,
    GiveUp,
}

pub fn retry_after_failure(elapsed_secs: u64, timeout_secs: u64) -> (r: RetryDecision)
    ensures
        r == RetryDecision::Retry <==> elapsed_secs < timeout_secs,
        r == RetryDecision::Retry || r == RetryDecision::GiveUp,
{
    if elapsed_secs < timeout_secs {
        RetryDecision::Retry
    } else {
        RetryDecision::GiveUp
    }
}

/// Replays the retry policy over recorded per-attempt outcomes: the first
/// attempt inside the budget that succeeded, or `Timeout` when none did.
pub fn send_session_outcome(attempts: &Vec<bool>, timeout_secs: u64, delay_secs: u64) -> (r:
    Result<usize, ErrorKind>)
    ensures
        r is Ok <==> spec_retry_succeeds(attempts@, timeout_secs, delay_secs),
        r matches Ok(k) ==> {
            &&& k < attempts@.len()
            &&& attempt_in_budget(k as int, timeout_secs, delay_secs)
            &&& attempts@[k as int]
            &&& forall|j: int|
                0 <= j < k ==> !(attempt_in_budget(j, timeout_secs, delay_secs) && attempts@[j])
        },
        r matches Err(e) ==> e == ErrorKind::Timeout,
{
    let mut k: usize = 0;
    let mut elapsed: u64 = 0;
    while k < attempts.len()
        invariant
            0 <= k <= attempts@.len(),
            elapsed < timeout_secs ==> elapsed == k * delay_secs,
            elapsed >= timeout_secs ==> k * delay_secs >= timeout_secs || k == 0,
            k == 0 ==> elapsed == 0,
            forall|j: int|
                0 <= j < k ==> !(attempt_in_budget(j, timeout_secs, delay_secs) && attempts@[j]),
        decreases attempts@.len() - k,
    {
        let in_budget = k == 0 || elapsed < timeout_secs;
        proof {
            if k > 0 {
                if elapsed < timeout_secs {
                    assert(attempt_in_budget(k as int, timeout_secs, delay_secs));
                } else {
                    assert(!attempt_in_budget(k as int, timeout_secs, delay_secs));
                }
            }
        }
        if in_budget && attempts[k] {
            return Ok(k);
        }
        proof {
            if in_budget {
                assert(!attempts@[k as int]);
            }
        }
        if elapsed < timeout_secs {
            proof {
                assert((k + 1) * delay_secs == k * delay_secs + delay_secs) by (nonlinear_arith);
            }
            if delay_secs > u64::MAX - elapsed {
                elapsed = u64::MAX;
            } else {
                elapsed = elapsed + delay_secs;
            }
        } else {
            proof {
                if k == 0 {
                    assert(timeout_secs == 0);
                    lemma_mul_nonnegative((k + 1) as int, delay_secs as int);
                } else {
                    assert((k + 1) * delay_secs >= k * delay_secs) by (nonlinear_arith)
                        requires
                            k >= 0,
                            delay_secs >= 0,
                    ;
                }
            }
        }
        k = k + 1;
    }
    proof {
        assert(!spec_retry_succeeds(attempts@, timeout_secs, delay_secs)) by {
            if spec_retry_succeeds(attempts@, timeout_secs, delay_secs) {
                let w = choose|w: int|
                    0 <= w < attempts@.len() && attempt_in_budget(w, timeout_secs, delay_secs)
                        && attempts@[w];
                assert(false);
            }
        }
    }
    Err(ErrorKind::Timeout)
}

/// With a transmit budget of zero, a failed first attempt is final: no
/// retry is inside the budget, so the outcome is `Timeout`.
pub proof fn lemma_zero_timeout_first_failure(attempts: Seq<bool>, delay_secs: u64)
    requires
        attempts.len() > 0,
        !attempts[0],
    ensures
        !spec_retry_succeeds(attempts, 0, delay_secs),
{
    if spec_retry_succeeds(attempts, 0, delay_secs) {
        let k = choose|k: int|
            0 <= k < attempts.len() && attempt_in_budget(k, 0, delay_secs) && attempts[k];
        if k > 0 {
            lemma_mul_nonnegative(k, delay_secs as int);
            assert(!(k * delay_secs < 0));
            assert(false);
        } else {
            assert(!attempts[0]);
            assert(false);
        }
    }
}

} // verus!
