//! Per-connection session state.
//!
//! Exactly one session exists per gateway connection. The gateway's
//! opaque handle is mapped by the embedding layer to a [`SessionId`],
//! the session's index in the switchboard's session table; the session
//! holds everything else the core tracks for the connection.

use vstd::prelude::*;

use crate::messages::{RoomId, Subscription, UserId};

verus! {

/// A connection identity: the index of a session in the switchboard's
/// session table.
pub type SessionId = usize;

/// The room and user identity a session acquires on its first
/// successful join; never reassigned afterwards.
#[derive(Debug)]
pub struct JoinState {
    pub room_id: RoomId,
    pub user_id: UserId,
}

impl JoinState {
    /// Bind a room and user identity.
    pub fn new(room_id: RoomId, user_id: UserId) -> (r: JoinState)
        ensures
            r.room_id == room_id,
            r.user_id == user_id,
    {
        JoinState { room_id, user_id }
    }
}

/// Everything the core tracks for one connection.
#[derive(Debug)]
pub struct Session {
    /// Write-once: set on the first successful join.
    pub join_state: Option<JoinState>,
    /// Write-once: set at join time or by a later subscribe, only once.
    pub subscription: Option<Subscription>,
    /// The cached SDP offer this session presents to its subscribers;
    /// set when the session first publishes, rewritten on renegotiation.
    pub subscriber_offer: Option<String>,
    /// The sequence number for full intra requests sent to this session
    /// as a publisher; never decreases.
    pub fir_seq: u64,
    /// Set when the connection closes; a destroyed session is mutated
    /// no further and stands in no switchboard index.
    pub destroyed: bool,
}

impl Session {
    /// A fresh session for a newly opened connection.
    pub fn new() -> (s: Session)
        ensures
            s.join_state is None,
            s.subscription is None,
            s.subscriber_offer is None,
            s.fir_seq == 0,
            !s.destroyed,
    {
        Session {
            join_state: None,
            subscription: None,
            subscriber_offer: None,
            fir_seq: 0,
            destroyed: false,
        }
    }
}

/// Whether a session is a master handle: it has a subscription that
/// takes part in the data mesh.
pub open spec fn is_master(s: Session) -> bool {
    match s.subscription {
        Option::Some(sub) => sub.data,
        Option::None => false,
    }
}

/// The user a session joined as. Meaningful only when joined.
pub open spec fn user_of(s: Session) -> Seq<char> {
    s.join_state->0.user_id@
}

/// The room a session joined. Meaningful only when joined.
pub open spec fn room_of(s: Session) -> Seq<char> {
    s.join_state->0.room_id@
}

/// Whether a session wants room-wide event notifications.
pub open spec fn wants_notifications(s: Session) -> bool {
    match s.subscription {
        Option::Some(sub) => sub.notifications,
        Option::None => false,
    }
}

} // verus!
