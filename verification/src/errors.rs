//! The errors that signalling processing can report to a client.
//!
//! Every error is surfaced to the offending client inside the response
//! envelope; none of them changes server state.

use vstd::prelude::*;

verus! {

/// Everything that can go wrong while handling one signalling message.
#[derive(Debug, Clone, Copy, PartialEq, Eq)]
pub enum SfuError {
    /// The message or JSEP text is not well-formed JSON.
    MalformedJson,
    /// A known message kind with missing or ill-typed fields, a message
    /// that is not an object, or an unknown field in a subscription record.
    MalformedMessage,
    /// A `kind` discriminator that names no known message.
    UnknownMessageKind,
    /// A `type` discriminator that names no known JSEP.
    UnknownJsepKind,
    /// A JSEP envelope with missing or ill-typed fields.
    MalformedJsep,
    /// A join on a session that has already joined.
    AlreadyJoined,
    /// A subscription for a session that already has one.
    AlreadySubscribed,
    /// A master join into a room that is at capacity.
    RoomFull,
    /// A media subscription naming a user who is not publishing.
    NoSuchPublisher,
    /// A block or unblock from a session that has not joined a room.
    NotInRoom,
    /// An SDP offer arrived but no negotiated answer was supplied.
    NegotiationUnavailable,
}

/// The text for each error, as it appears in the error envelope.
pub open spec fn spec_error_text(e: SfuError) -> Seq<char> {
    match e {
        SfuError::MalformedJson => "Malformed JSON."@,
        SfuError::MalformedMessage => "Malformed message."@,
        SfuError::UnknownMessageKind => "Unknown message kind."@,
        SfuError::UnknownJsepKind => "Unknown JSEP kind."@,
        SfuError::MalformedJsep => "Malformed JSEP."@,
        SfuError::AlreadyJoined => "Handles may only join once!"@,
        SfuError::AlreadySubscribed => "Handles may only subscribe once!"@,
        SfuError::RoomFull => "Room is full."@,
        SfuError::NoSuchPublisher => "Can't subscribe to a nonexistent publisher."@,
        SfuError::NotInRoom => "Cannot block or unblock when not in a room."@,
        SfuError::NegotiationUnavailable => "Cannot negotiate this session description."@,
    }
}

impl SfuError {
    /// The text for the error envelope's `error.msg` field.
    pub fn text(&self) -> (r: String)
        ensures
            r@ == spec_error_text(*self),
    {
        match self {
            SfuError::MalformedJson => "Malformed JSON.".to_owned(),
            SfuError::MalformedMessage => "Malformed message.".to_owned(),
            SfuError::UnknownMessageKind => "Unknown message kind.".to_owned(),
            SfuError::UnknownJsepKind => "Unknown JSEP kind.".to_owned(),
            SfuError::MalformedJsep => "Malformed JSEP.".to_owned(),
            SfuError::AlreadyJoined => "Handles may only join once!".to_owned(),
            SfuError::AlreadySubscribed => "Handles may only subscribe once!".to_owned(),
            SfuError::RoomFull => "Room is full.".to_owned(),
            SfuError::NoSuchPublisher => "Can't subscribe to a nonexistent publisher.".to_owned(),
            SfuError::NotInRoom => "Cannot block or unblock when not in a room.".to_owned(),
            SfuError::NegotiationUnavailable => "Cannot negotiate this session description.".to_owned(),
        }
    }
}

} // verus!
