//! The signalling core: message dispatch, join, subscribe, block and
//! unblock handling, offer and answer processing, response framing,
//! session lifecycle, and the hot-path relay decisions.
//!
//! The server owns the switchboard and the settings and performs no
//! gateway work itself: each operation returns the list of [`Effect`]s
//! the embedding layer must perform, in order, and the response that
//! answers the originating session.

use vstd::prelude::*;

use crate::config::Config;
use crate::errors::SfuError;
use crate::json::{spec_obj_get, lemma_obj_get_found, Json};
use crate::messages::{
    encode_jsep, JsepKind, MessageKind, OptionalField, RoomId, Subscription, UserId,
    parse_message, parse_jsep, spec_parse_message, spec_parse_jsep, spec_decode_jsep,
};
use crate::rtcp;
use crate::sessions::{room_of, user_of, wants_notifications, JoinState, Session, SessionId};
use crate::switchboard::{lemma_wf_set_fields, lemma_wf_set_offer, Switchboard};

verus! {

broadcast use vstd::seq_lib::lemma_seq_contains_after_push;

/// One call the embedding layer must make on the gateway.
#[derive(Debug, PartialEq, Eq)]
pub enum Effect {
    /// Push an event (a notification or a renegotiation offer) to a
    /// session, outside any transaction.
    PushEvent { to: SessionId, body: Json, jsep: Option<Json> },
    /// Relay the RTP packet at hand to a session.
    RelayRtp { to: SessionId },
    /// Relay the RTCP packet at hand to a session.
    RelayRtcp { to: SessionId },
    /// Send a synthesized RTCP packet to a session.
    SendRtcp { to: SessionId, packet: Vec<u8> },
    /// Relay the data-channel message at hand to a session.
    RelayData { to: SessionId },
}

/// The answer to one signalling message, pushed to its sender under
/// the message's transaction.
#[derive(Debug, PartialEq, Eq)]
pub struct Response {
    pub body: Json,
    pub jsep: Option<Json>,
}

// ---------------------------------------------------------------------
// Event bodies and envelopes
// ---------------------------------------------------------------------

/// A room event body: `{event: <kind>, user_id: <u>, room_id: <r>}`.
pub open spec fn is_room_event(j: Json, kind: Seq<char>, u: Seq<char>, r: Seq<char>) -> bool {
    &&& j is Obj
    &&& j->Obj_0@.len() == 3
    &&& match spec_obj_get(j->Obj_0@, "event"@) {
        Option::Some(Json::Str(e)) => e@ == kind,
        _ => false,
    }
    &&& match spec_obj_get(j->Obj_0@, "user_id"@) {
        Option::Some(Json::Str(x)) => x@ == u,
        _ => false,
    }
    &&& match spec_obj_get(j->Obj_0@, "room_id"@) {
        Option::Some(Json::Str(x)) => x@ == r,
        _ => false,
    }
}

/// A user event body: `{event: <kind>, by: <u>}`.
pub open spec fn is_user_event(j: Json, kind: Seq<char>, by: Seq<char>) -> bool {
    &&& j is Obj
    &&& j->Obj_0@.len() == 2
    &&& match spec_obj_get(j->Obj_0@, "event"@) {
        Option::Some(Json::Str(e)) => e@ == kind,
        _ => false,
    }
    &&& match spec_obj_get(j->Obj_0@, "by"@) {
        Option::Some(Json::Str(x)) => x@ == by,
        _ => false,
    }
}

/// The empty object.
pub open spec fn is_empty_object(j: Json) -> bool {
    j is Obj && j->Obj_0@.len() == 0
}

/// An error envelope: `{success: false, error: {msg: <text>}}`.
pub open spec fn is_error_envelope(j: Json, msg: Seq<char>) -> bool {
    &&& j is Obj
    &&& j->Obj_0@.len() == 2
    &&& match spec_obj_get(j->Obj_0@, "success"@) {
        Option::Some(Json::Bool(b)) => !b,
        _ => false,
    }
    &&& match spec_obj_get(j->Obj_0@, "error"@) {
        Option::Some(Json::Obj(inner)) => inner@.len() == 1 && match spec_obj_get(
            inner@,
            "msg"@,
        ) {
            Option::Some(Json::Str(t)) => t@ == msg,
            _ => false,
        },
        _ => false,
    }
}

/// A success envelope, optionally carrying a response body:
/// `{success: true}` or `{success: true, response: <body>}`.
pub open spec fn is_success_envelope(j: Json, body: Option<Json>) -> bool {
    &&& j is Obj
    &&& match spec_obj_get(j->Obj_0@, "success"@) {
        Option::Some(Json::Bool(b)) => b,
        _ => false,
    }
    &&& match body {
        Option::Some(b) => j->Obj_0@.len() == 2 && spec_obj_get(j->Obj_0@, "response"@)
            == Option::Some(b),
        Option::None => j->Obj_0@.len() == 1,
    }
}

/// A join response body: `{users: {<room>: [<user>, ...]}}`.
pub open spec fn is_users_body(j: Json, room: Seq<char>, users: Seq<UserId>) -> bool {
    &&& j is Obj
    &&& j->Obj_0@.len() == 1
    &&& match spec_obj_get(j->Obj_0@, "users"@) {
        Option::Some(Json::Obj(inner)) => {
            &&& inner@.len() == 1
            &&& match spec_obj_get(inner@, room) {
                Option::Some(Json::Arr(list)) => {
                    &&& list@.len() == users.len()
                    &&& forall|k: int|
                        0 <= k < users.len() ==> #[trigger] list@[k] == Json::Str(users[k])
                },
                _ => false,
            }
        },
        _ => false,
    }
}

/// Build a room event body.
fn room_event(kind: &str, user_id: &UserId, room_id: &RoomId) -> (j: Json)
    ensures
        is_room_event(j, kind@, user_id@, room_id@),
{
    let mut fields: Vec<(String, Json)> = Vec::new();
    fields.push(("event".to_owned(), Json::Str(kind.to_owned())));
    fields.push(("user_id".to_owned(), Json::Str(user_id.clone())));
    fields.push(("room_id".to_owned(), Json::Str(room_id.clone())));
    proof {
        reveal_strlit("event");
        reveal_strlit("user_id");
        reveal_strlit("room_id");
        assert("event"@.len() == 5 && "user_id"@.len() == 7 && "room_id"@.len() == 7);
        assert("user_id"@[0] == 'u' && "room_id"@[0] == 'r');
        assert("event"@ != "user_id"@ && "event"@ != "room_id"@ && "user_id"@ != "room_id"@);
        lemma_obj_get_found(fields@, 0, "event"@);
        lemma_obj_get_found(fields@, 1, "user_id"@);
        lemma_obj_get_found(fields@, 2, "room_id"@);
    }
    Json::Obj(fields)
}

/// Build a user event body.
fn user_event(kind: &str, by: &UserId) -> (j: Json)
    ensures
        is_user_event(j, kind@, by@),
{
    let mut fields: Vec<(String, Json)> = Vec::new();
    fields.push(("event".to_owned(), Json::Str(kind.to_owned())));
    fields.push(("by".to_owned(), Json::Str(by.clone())));
    proof {
        reveal_strlit("event");
        reveal_strlit("by");
        assert("event"@.len() == 5 && "by"@.len() == 2);
        assert("event"@ != "by"@);
        lemma_obj_get_found(fields@, 0, "event"@);
        lemma_obj_get_found(fields@, 1, "by"@);
    }
    Json::Obj(fields)
}

/// Build the empty object.
pub fn empty_object() -> (j: Json)
    ensures
        is_empty_object(j),
{
    Json::Obj(Vec::new())
}

/// Build an error envelope for an error.
pub fn error_envelope(e: SfuError) -> (j: Json)
    ensures
        is_error_envelope(j, crate::errors::spec_error_text(e)),
{
    let mut inner: Vec<(String, Json)> = Vec::new();
    inner.push(("msg".to_owned(), Json::Str(e.text())));
    proof {
        reveal_strlit("msg");
        lemma_obj_get_found(inner@, 0, "msg"@);
    }
    let mut fields: Vec<(String, Json)> = Vec::new();
    fields.push(("success".to_owned(), Json::Bool(false)));
    fields.push(("error".to_owned(), Json::Obj(inner)));
    proof {
        reveal_strlit("success");
        reveal_strlit("error");
        assert("success"@.len() == 7 && "error"@.len() == 5);
        assert("success"@ != "error"@);
        lemma_obj_get_found(fields@, 0, "success"@);
        lemma_obj_get_found(fields@, 1, "error"@);
    }
    Json::Obj(fields)
}

/// Build a success envelope, with a response body if one is given.
pub fn success_envelope(body: Option<Json>) -> (j: Json)
    ensures
        is_success_envelope(j, body),
{
    let mut fields: Vec<(String, Json)> = Vec::new();
    fields.push(("success".to_owned(), Json::Bool(true)));
    proof {
        reveal_strlit("success");
        reveal_strlit("response");
        assert("success"@.len() == 7 && "response"@.len() == 8);
        assert("success"@ != "response"@);
        lemma_obj_get_found(fields@, 0, "success"@);
    }
    match body {
        Some(b) => {
            fields.push(("response".to_owned(), b));
            proof {
                reveal_strlit("success");
                reveal_strlit("response");
                assert("success"@.len() == 7 && "response"@.len() == 8);
                assert("success"@ != "response"@);
                lemma_obj_get_found(fields@, 0, "success"@);
                lemma_obj_get_found(fields@, 1, "response"@);
            }
            Json::Obj(fields)
        },
        None => Json::Obj(fields),
    }
}

// ---------------------------------------------------------------------
// Notification fan-out
// ---------------------------------------------------------------------

/// Who receives a join or leave broadcast about user `u` in room `r`:
/// every master handle of the room that asked for notifications,
/// except the sessions of `u` itself.
pub open spec fn notify_except_audience(
    sb: Switchboard,
    u: Seq<char>,
    r: Seq<char>,
    t: SessionId,
) -> bool {
    &&& sb.is_occupant(r, t)
    &&& wants_notifications(sb.sess(t))
    &&& user_of(sb.sess(t)) != u
}

/// Who receives a block or unblock notice aimed at user `whom` in room
/// `r`: that user's master handles there that asked for notifications.
pub open spec fn notify_user_audience(
    sb: Switchboard,
    whom: Seq<char>,
    r: Seq<char>,
    t: SessionId,
) -> bool {
    &&& sb.is_occupant(r, t)
    &&& wants_notifications(sb.sess(t))
    &&& user_of(sb.sess(t)) == whom
}

/// An effect list that delivers a room event about `u` in `r`, exactly
/// once, to exactly the except-audience.
pub open spec fn room_broadcast_ok(
    sb: Switchboard,
    kind: Seq<char>,
    u: Seq<char>,
    r: Seq<char>,
    ef: Seq<Effect>,
) -> bool {
    &&& (forall|k: int|
        0 <= k < ef.len() ==> match #[trigger] ef[k] {
            Effect::PushEvent { to, body, jsep } => {
                &&& notify_except_audience(sb, u, r, to)
                &&& is_room_event(body, kind, u, r)
                &&& jsep is None
            },
            _ => false,
        })
    &&& (forall|t: SessionId| #[trigger]
        notify_except_audience(sb, u, r, t) ==> exists|k: int|
            0 <= k < ef.len() && #[trigger] ef[k] is PushEvent && ef[k]->PushEvent_to == t)
    &&& (forall|k1: int, k2: int|
        0 <= k1 < k2 < ef.len() ==> #[trigger] ef[k1]->PushEvent_to
            != #[trigger] ef[k2]->PushEvent_to)
}

/// An effect list that delivers a user event to exactly the sessions
/// of `whom` in the audience, exactly once each.
pub open spec fn user_broadcast_ok(
    sb: Switchboard,
    kind: Seq<char>,
    by: Seq<char>,
    whom: Seq<char>,
    r: Seq<char>,
    ef: Seq<Effect>,
) -> bool {
    &&& (forall|k: int|
        0 <= k < ef.len() ==> match #[trigger] ef[k] {
            Effect::PushEvent { to, body, jsep } => {
                &&& notify_user_audience(sb, whom, r, to)
                &&& is_user_event(body, kind, by)
                &&& jsep is None
            },
            _ => false,
        })
    &&& (forall|t: SessionId| #[trigger]
        notify_user_audience(sb, whom, r, t) ==> exists|k: int|
            0 <= k < ef.len() && #[trigger] ef[k] is PushEvent && ef[k]->PushEvent_to == t)
    &&& (forall|k1: int, k2: int|
        0 <= k1 < k2 < ef.len() ==> #[trigger] ef[k1]->PushEvent_to
            != #[trigger] ef[k2]->PushEvent_to)
}

/// Queue a room event for every notification-subscribed occupant of
/// the room except the sessions of `user_id` itself.
#[verifier::rlimit(50)]
fn notify_except(sb: &Switchboard, kind: &str, user_id: &UserId, room_id: &RoomId) -> (ef: Vec<
    Effect,
>)
    requires
        sb.wf(),
    ensures
        room_broadcast_ok(*sb, kind@, user_id@, room_id@, ef@),
{
    let occ = sb.occupants_of(room_id);
    let n: usize = occ.len();
    let mut ef: Vec<Effect> = Vec::new();
    let mut i: usize = 0;
    proof {
        if sb.room_at(room_id@) is None {
            assert(forall|t: SessionId| !#[trigger] sb.is_occupant(room_id@, t));
        }
    }
    while i < n
        invariant
            sb.wf(),
            n == occ@.len(),
            0 <= i <= n,
            match sb.room_at(room_id@) {
                Option::Some(ri) => occ@ == sb.occupants@[ri].1@,
                Option::None => occ@ == Seq::<SessionId>::empty(),
            },
            forall|k: int|
                0 <= k < ef@.len() ==> match #[trigger] ef@[k] {
                    Effect::PushEvent { to, body, jsep } => {
                        &&& notify_except_audience(*sb, user_id@, room_id@, to)
                        &&& is_room_event(body, kind@, user_id@, room_id@)
                        &&& jsep is None
                    },
                    _ => false,
                },
            forall|q: int|
                0 <= q < i && notify_except_audience(*sb, user_id@, room_id@, #[trigger] occ@[q])
                    ==> exists|k: int|
                    0 <= k < ef@.len() && #[trigger] ef@[k] is PushEvent && ef@[k]->PushEvent_to
                        == occ@[q],
            forall|k: int|
                0 <= k < ef@.len() ==> exists|q: int|
                    0 <= q < i && occ@[q] == (#[trigger] ef@[k])->PushEvent_to,
            forall|k1: int, k2: int|
                0 <= k1 < k2 < ef@.len() ==> #[trigger] ef@[k1]->PushEvent_to
                    != #[trigger] ef@[k2]->PushEvent_to,
        decreases n - i,
    {
        let t = occ[i];
        let ghost prev_ef = ef@;
        proof {
            assert(occ@.contains(t)) by {
                assert(occ@[i as int] == t);
            }
            assert(sb.is_occupant(room_id@, t));
            crate::switchboard::lemma_room_at_props(sb.occupants@, room_id@);
            let ri = sb.room_at(room_id@)->0;
            assert(0 <= ri < sb.occupants@.len());
            assert(occ@ == sb.occupants@[ri].1@);
            assert(sb.occupants@[ri].1@[i as int] == t);
            assert(sb.live(t) && sb.sess(t).join_state is Some);
        }
        let wants = match &sb.sessions[t].subscription {
            Some(sub) => sub.notifications,
            None => false,
        };
        proof {
            assert(wants == wants_notifications(sb.sess(t)));
        }
        let differs = match &sb.sessions[t].join_state {
            Some(js) => !(js.user_id == *user_id),
            None => true,
        };
        proof {
            assert(differs == (user_of(sb.sess(t)) != user_id@));
        }
        let give = wants && differs;
        if give {
            proof {
                assert(notify_except_audience(*sb, user_id@, room_id@, t));
                crate::switchboard::lemma_room_at_props(sb.occupants@, room_id@);
                let ri = sb.room_at(room_id@)->0;
                assert(0 <= ri < sb.occupants@.len());
                assert(occ@ == sb.occupants@[ri].1@);
                assert forall|k: int| 0 <= k < ef@.len() implies #[trigger] ef@[k]->PushEvent_to
                    != t by {
                    let q = choose|q: int|
                        0 <= q < i && occ@[q] == ef@[k]->PushEvent_to;
                    assert(sb.occupants@[ri].1@[q] == occ@[q]);
                    assert(sb.occupants@[ri].1@[i as int] == occ@[i as int]);
                    assert(sb.occupants@[ri].1@[q] != sb.occupants@[ri].1@[i as int]);
                }
            }
            ef.push(
                Effect::PushEvent { to: t, body: room_event(kind, user_id, room_id), jsep: None },
            );
        }
        proof {
            assert(give == notify_except_audience(*sb, user_id@, room_id@, t));
            assert forall|q: int|
                0 <= q < i + 1 && notify_except_audience(
                    *sb,
                    user_id@,
                    room_id@,
                    #[trigger] occ@[q],
                ) implies exists|k: int|
                0 <= k < ef@.len() && #[trigger] ef@[k] is PushEvent && ef@[k]->PushEvent_to
                    == occ@[q] by {
                if q == i {
                    assert(ef@[ef@.len() - 1] is PushEvent && ef@[ef@.len()
                        - 1]->PushEvent_to == occ@[q]);
                } else {
                    let k = choose|k: int|
                        0 <= k < prev_ef.len() && #[trigger] prev_ef[k] is PushEvent
                            && prev_ef[k]->PushEvent_to == occ@[q];
                    assert(ef@[k] == prev_ef[k]);
                }
            }
        }
        i += 1;
    }
    proof {
        assert forall|t: SessionId| #[trigger]
            notify_except_audience(*sb, user_id@, room_id@, t) implies exists|k: int|
            0 <= k < ef@.len() && #[trigger] ef@[k] is PushEvent && ef@[k]->PushEvent_to == t by {
            assert(sb.is_occupant(room_id@, t));
            let q = choose|q: int| 0 <= q < occ@.len() && occ@[q] == t;
        }
    }
    ef
}

/// Queue a user event for every notification-subscribed session of
/// `whom` among the room's occupants.
#[verifier::rlimit(50)]
fn notify_user(sb: &Switchboard, kind: &str, by: &UserId, whom: &UserId, room_id: &RoomId) -> (ef:
    Vec<Effect>)
    requires
        sb.wf(),
    ensures
        user_broadcast_ok(*sb, kind@, by@, whom@, room_id@, ef@),
{
    let occ = sb.occupants_of(room_id);
    let n: usize = occ.len();
    let mut ef: Vec<Effect> = Vec::new();
    let mut i: usize = 0;
    proof {
        if sb.room_at(room_id@) is None {
            assert(forall|t: SessionId| !#[trigger] sb.is_occupant(room_id@, t));
        }
    }
    while i < n
        invariant
            sb.wf(),
            n == occ@.len(),
            0 <= i <= n,
            match sb.room_at(room_id@) {
                Option::Some(ri) => occ@ == sb.occupants@[ri].1@,
                Option::None => occ@ == Seq::<SessionId>::empty(),
            },
            forall|k: int|
                0 <= k < ef@.len() ==> match #[trigger] ef@[k] {
                    Effect::PushEvent { to, body, jsep } => {
                        &&& notify_user_audience(*sb, whom@, room_id@, to)
                        &&& is_user_event(body, kind@, by@)
                        &&& jsep is None
                    },
                    _ => false,
                },
            forall|q: int|
                0 <= q < i && notify_user_audience(*sb, whom@, room_id@, #[trigger] occ@[q])
                    ==> exists|k: int|
                    0 <= k < ef@.len() && #[trigger] ef@[k] is PushEvent && ef@[k]->PushEvent_to
                        == occ@[q],
            forall|k: int|
                0 <= k < ef@.len() ==> exists|q: int|
                    0 <= q < i && occ@[q] == (#[trigger] ef@[k])->PushEvent_to,
            forall|k1: int, k2: int|
                0 <= k1 < k2 < ef@.len() ==> #[trigger] ef@[k1]->PushEvent_to
                    != #[trigger] ef@[k2]->PushEvent_to,
        decreases n - i,
    {
        let t = occ[i];
        let ghost prev_ef = ef@;
        proof {
            assert(occ@.contains(t)) by {
                assert(occ@[i as int] == t);
            }
            assert(sb.is_occupant(room_id@, t));
            crate::switchboard::lemma_room_at_props(sb.occupants@, room_id@);
            let ri = sb.room_at(room_id@)->0;
            assert(0 <= ri < sb.occupants@.len());
            assert(occ@ == sb.occupants@[ri].1@);
            assert(sb.occupants@[ri].1@[i as int] == t);
            assert(sb.live(t) && sb.sess(t).join_state is Some);
        }
        let wants = match &sb.sessions[t].subscription {
            Some(sub) => sub.notifications,
            None => false,
        };
        proof {
            assert(wants == wants_notifications(sb.sess(t)));
        }
        let same = match &sb.sessions[t].join_state {
            Some(js) => js.user_id == *whom,
            None => false,
        };
        proof {
            assert(same == (user_of(sb.sess(t)) == whom@));
        }
        let give = wants && same;
        if give {
            proof {
                assert(notify_user_audience(*sb, whom@, room_id@, t));
                crate::switchboard::lemma_room_at_props(sb.occupants@, room_id@);
                let ri = sb.room_at(room_id@)->0;
                assert(0 <= ri < sb.occupants@.len());
                assert(occ@ == sb.occupants@[ri].1@);
                assert forall|k: int| 0 <= k < ef@.len() implies #[trigger] ef@[k]->PushEvent_to
                    != t by {
                    let q = choose|q: int|
                        0 <= q < i && occ@[q] == ef@[k]->PushEvent_to;
                    assert(sb.occupants@[ri].1@[q] == occ@[q]);
                    assert(sb.occupants@[ri].1@[i as int] == occ@[i as int]);
                    assert(sb.occupants@[ri].1@[q] != sb.occupants@[ri].1@[i as int]);
                }
            }
            ef.push(Effect::PushEvent { to: t, body: user_event(kind, by), jsep: None });
        }
        proof {
            assert(give == notify_user_audience(*sb, whom@, room_id@, t));
            assert forall|q: int|
                0 <= q < i + 1 && notify_user_audience(
                    *sb,
                    whom@,
                    room_id@,
                    #[trigger] occ@[q],
                ) implies exists|k: int|
                0 <= k < ef@.len() && #[trigger] ef@[k] is PushEvent && ef@[k]->PushEvent_to
                    == occ@[q] by {
                if q == i {
                    assert(ef@[ef@.len() - 1] is PushEvent && ef@[ef@.len()
                        - 1]->PushEvent_to == occ@[q]);
                } else {
                    let k = choose|k: int|
                        0 <= k < prev_ef.len() && #[trigger] prev_ef[k] is PushEvent
                            && prev_ef[k]->PushEvent_to == occ@[q];
                    assert(ef@[k] == prev_ef[k]);
                }
            }
        }
        i += 1;
    }
    proof {
        assert forall|t: SessionId| #[trigger]
            notify_user_audience(*sb, whom@, room_id@, t) implies exists|k: int|
            0 <= k < ef@.len() && #[trigger] ef@[k] is PushEvent && ef@[k]->PushEvent_to == t by {
            assert(sb.is_occupant(room_id@, t));
            let q = choose|q: int| 0 <= q < occ@.len() && occ@[q] == t;
        }
    }
    ef
}

// ---------------------------------------------------------------------
// Keyframe requests
// ---------------------------------------------------------------------

/// The sequence counter after one full intra request: it grows until
/// it reaches its cap, where it stays.
pub open spec fn next_fir(f: u64) -> u64 {
    if f == u64::MAX {
        f
    } else {
        (f + 1) as u64
    }
}

/// Whether two sessions agree on everything but the subscription.
pub open spec fn same_but_subscription(a: Session, b: Session) -> bool {
    &&& a.join_state == b.join_state
    &&& a.subscriber_offer == b.subscriber_offer
    &&& a.fir_seq == b.fir_seq
    &&& a.destroyed == b.destroyed
}

/// Whether two sessions agree on everything but the FIR counter.
pub open spec fn same_but_fir(a: Session, b: Session) -> bool {
    &&& a.join_state == b.join_state
    &&& a.subscription == b.subscription
    &&& a.subscriber_offer == b.subscriber_offer
    &&& a.destroyed == b.destroyed
}

/// A switchboard whose sessions changed only in their FIR counters
/// keeps its invariant and all its routing.
proof fn lemma_wf_but_fir(a: Switchboard, b: Switchboard)
    requires
        a.wf(),
        b.sessions@.len() == a.sessions@.len(),
        forall|t: SessionId| a.valid_id(t) ==> same_but_fir(#[trigger] b.sess(t), a.sess(t)),
        b.occupants == a.occupants,
        b.edges == a.edges,
        b.blocks == a.blocks,
    ensures
        b.wf(),
{
}

/// Queue one full intra request toward each listed session, advancing
/// each session's FIR counter.
fn send_fir(sb: &mut Switchboard, targets: &Vec<SessionId>) -> (ef: Vec<Effect>)
    requires
        old(sb).wf(),
        targets@.no_duplicates(),
        forall|k: int| 0 <= k < targets@.len() ==> old(sb).valid_id(#[trigger] targets@[k]),
    ensures
        final(sb).wf(),
        final(sb).sessions@.len() == old(sb).sessions@.len(),
        final(sb).occupants == old(sb).occupants,
        final(sb).edges == old(sb).edges,
        final(sb).blocks == old(sb).blocks,
        forall|t: SessionId|
            old(sb).valid_id(t) && !targets@.contains(t) ==> #[trigger] final(sb).sess(t) == old(
                sb,
            ).sess(t),
        forall|k: int|
            0 <= k < targets@.len() ==> {
                let t = #[trigger] targets@[k];
                &&& same_but_fir(final(sb).sess(t), old(sb).sess(t))
                &&& final(sb).sess(t).fir_seq == next_fir(old(sb).sess(t).fir_seq)
            },
        ef@.len() == targets@.len(),
        forall|k: int|
            0 <= k < targets@.len() ==> {
                let e = #[trigger] ef@[k];
                &&& e is SendRtcp
                &&& e->SendRtcp_to == targets@[k]
                &&& e->SendRtcp_packet@ == rtcp::spec_fir(old(sb).sess(targets@[k]).fir_seq)
            },
    {
        let n: usize = targets.len();
        let mut ef: Vec<Effect> = Vec::new();
        let mut i: usize = 0;
        while i < n
            invariant
                n == targets@.len(),
                0 <= i <= n,
                targets@.no_duplicates(),
                forall|k: int|
                    0 <= k < targets@.len() ==> old(sb).valid_id(#[trigger] targets@[k]),
                sb.sessions@.len() == old(sb).sessions@.len(),
                sb.occupants == old(sb).occupants,
                sb.edges == old(sb).edges,
                sb.blocks == old(sb).blocks,
                forall|t: SessionId|
                    t < old(sb).sessions@.len() && !targets@.subrange(0, i as int).contains(t)
                        ==> #[trigger] sb.sessions@[t as int] == old(sb).sessions@[t as int],
                forall|k: int|
                    0 <= k < i ==> {
                        let t = #[trigger] targets@[k];
                        &&& same_but_fir(sb.sess(t), old(sb).sess(t))
                        &&& sb.sess(t).fir_seq == next_fir(old(sb).sess(t).fir_seq)
                    },
                ef@.len() == i,
                forall|k: int|
                    0 <= k < i ==> {
                        let e = #[trigger] ef@[k];
                        &&& e is SendRtcp
                        &&& e->SendRtcp_to == targets@[k]
                        &&& e->SendRtcp_packet@ == rtcp::spec_fir(old(sb).sess(targets@[k]).fir_seq)
                    },
            decreases n - i,
        {
            let t = targets[i];
            proof {
                assert(!targets@.subrange(0, i as int).contains(t)) by {
                    if targets@.subrange(0, i as int).contains(t) {
                        let q = choose|q: int| 0 <= q < i && targets@.subrange(0, i as int)[q] == t;
                        assert(targets@[q] == targets@[i as int]);
                    }
                }
                assert(sb.sess(t) == old(sb).sess(t));
            }
            let f = sb.sessions[t].fir_seq;
            let packet = rtcp::gen_fir(f);
            let nf = if f == u64::MAX {
                f
            } else {
                f + 1
            };
            let ghost prev = sb.sessions@;
            let slot = &mut sb.sessions[t];
            slot.fir_seq = nf;
            ef.push(Effect::SendRtcp { to: t, packet });
            proof {
                assert(sb.sessions@ == prev.update(t as int, sb.sessions@[t as int]));
                assert(targets@.subrange(0, i + 1) =~= targets@.subrange(0, i as int).push(t));
                assert forall|t2: SessionId|
                    t2 < old(sb).sessions@.len() && !targets@.subrange(0, i + 1).contains(t2)
                        implies #[trigger] sb.sessions@[t2 as int] == old(sb).sessions@[t2 as int]
                    by {
                    assert(t2 != t);
                    assert(!targets@.subrange(0, i as int).contains(t2));
                    assert(sb.sessions@[t2 as int] == prev[t2 as int]);
                    assert(prev[t2 as int] == old(sb).sessions@[t2 as int]);
                }
            }
            i += 1;
        }
        proof {
            assert(targets@.subrange(0, n as int) =~= targets@);
            lemma_wf_but_fir(*old(sb), *sb);
        }
        ef
    }

/// Queue one picture loss indication toward each listed session.
fn send_pli(targets: &Vec<SessionId>) -> (ef: Vec<Effect>)
    ensures
        ef@.len() == targets@.len(),
        forall|k: int|
            0 <= k < targets@.len() ==> {
                let e = #[trigger] ef@[k];
                &&& e is SendRtcp
                &&& e->SendRtcp_to == targets@[k]
                &&& e->SendRtcp_packet@ == rtcp::spec_pli()
            },
    {
        let n: usize = targets.len();
        let mut ef: Vec<Effect> = Vec::new();
        let mut i: usize = 0;
        while i < n
            invariant
                n == targets@.len(),
                0 <= i <= n,
                ef@.len() == i,
                forall|k: int|
                    0 <= k < i ==> {
                        let e = #[trigger] ef@[k];
                        &&& e is SendRtcp
                        &&& e->SendRtcp_to == targets@[k]
                        &&& e->SendRtcp_packet@ == rtcp::spec_pli()
                    },
            decreases n - i,
        {
            let packet = rtcp::gen_pli();
            ef.push(Effect::SendRtcp { to: targets[i], packet });
            i += 1;
        }
        ef
    }

// ---------------------------------------------------------------------
// The server
// ---------------------------------------------------------------------

/// The signalling core's whole state: the routing fabric and the
/// settings it enforces.
#[derive(Debug)]
pub struct Server {
    pub switchboard: Switchboard,
    pub config: Config,
}

/// Build a join response body listing a room's users.
fn users_body(room_id: &RoomId, users: Vec<UserId>) -> (j: Json)
    ensures
        is_users_body(j, room_id@, users@),
{
    let n: usize = users.len();
    let mut list: Vec<Json> = Vec::new();
    let mut i: usize = 0;
    while i < n
        invariant
            n == users@.len(),
            0 <= i <= n,
            list@.len() == i,
            forall|k: int| 0 <= k < i ==> #[trigger] list@[k] == Json::Str(users@[k]),
        decreases n - i,
    {
        list.push(Json::Str(users[i].clone()));
        i += 1;
    }
    let mut inner: Vec<(String, Json)> = Vec::new();
    inner.push((room_id.clone(), Json::Arr(list)));
    proof {
        lemma_obj_get_found(inner@, 0, room_id@);
    }
    let mut fields: Vec<(String, Json)> = Vec::new();
    fields.push(("users".to_owned(), Json::Obj(inner)));
    proof {
        reveal_strlit("users");
        lemma_obj_get_found(fields@, 0, "users"@);
    }
    Json::Obj(fields)
}


/// The two session descriptions that the gateway's negotiation
/// produced for a publisher's offer: the answer sent back to the
/// publisher, and the derived offer presented to its subscribers.
#[derive(Debug, PartialEq, Eq)]
pub struct Negotiated {
    pub answer_sdp: String,
    pub subscriber_offer_sdp: String,
}

/// The negotiation result as a plain value.
pub open spec fn opt_deref(n: Option<&Negotiated>) -> Option<Negotiated> {
    match n {
        Option::Some(x) => Option::Some(*x),
        Option::None => Option::None,
    }
}

/// Whether two sessions agree on everything but the cached offer.
pub open spec fn same_but_offer(a: Session, b: Session) -> bool {
    &&& a.join_state == b.join_state
    &&& a.subscription == b.subscription
    &&& a.fir_seq == b.fir_seq
    &&& a.destroyed == b.destroyed
}

/// An effect list that pushes a renegotiated offer to every subscriber
/// of publisher `from`, exactly once each.
pub open spec fn reoffer_broadcast_ok(
    sb: Switchboard,
    from: SessionId,
    sdp: String,
    ef: Seq<Effect>,
) -> bool {
    &&& (forall|k: int|
        0 <= k < ef.len() ==> match #[trigger] ef[k] {
            Effect::PushEvent { to, body, jsep } => {
                &&& sb.edge(from, to)
                &&& is_empty_object(body)
                &&& jsep matches Option::Some(j) && spec_decode_jsep(j) == Result::<
                    OptionalField<JsepKind>,
                    SfuError,
                >::Ok(OptionalField::Present(JsepKind::Offer { sdp }))
            },
            _ => false,
        })
    &&& (forall|t: SessionId| #[trigger]
        sb.edge(from, t) ==> exists|k: int|
            0 <= k < ef.len() && #[trigger] ef[k] is PushEvent && ef[k]->PushEvent_to == t)
    &&& (forall|k1: int, k2: int|
        0 <= k1 < k2 < ef.len() ==> #[trigger] ef[k1]->PushEvent_to
            != #[trigger] ef[k2]->PushEvent_to)
}

/// What an offer leaves behind: every current subscriber is pushed the
/// renegotiated offer, the offer is cached on the publisher, and the
/// negotiated answer goes back in the response.
pub open spec fn offer_post(
    pre: Server,
    post: Server,
    from: SessionId,
    negotiated: Option<Negotiated>,
    out: Result<Json, SfuError>,
    ef: Seq<Effect>,
) -> bool {
    match negotiated {
        Option::None => {
            &&& out == Result::<Json, SfuError>::Err(SfuError::NegotiationUnavailable)
            &&& ef.len() == 0
            &&& post == pre
        },
        Option::Some(n) => {
            &&& post.switchboard.sess(from).subscriber_offer == Option::Some(
                n.subscriber_offer_sdp,
            )
            &&& same_but_offer(post.switchboard.sess(from), pre.switchboard.sess(from))
            &&& (forall|t: SessionId|
                t != from && pre.switchboard.valid_id(t) ==> #[trigger] post.switchboard.sess(t)
                    == pre.switchboard.sess(t))
            &&& post.switchboard.sessions@.len() == pre.switchboard.sessions@.len()
            &&& post.switchboard.occupants == pre.switchboard.occupants
            &&& post.switchboard.edges == pre.switchboard.edges
            &&& post.switchboard.blocks == pre.switchboard.blocks
            &&& reoffer_broadcast_ok(pre.switchboard, from, n.subscriber_offer_sdp, ef)
            &&& out matches Result::Ok(j) && spec_decode_jsep(j) == Result::<
                OptionalField<JsepKind>,
                SfuError,
            >::Ok(OptionalField::Present(JsepKind::Answer { sdp: n.answer_sdp }))
        },
    }
}

/// What processing a JSEP text leaves behind: a parse failure or an
/// unknown type is reported, an absent envelope and an answer are
/// no-ops, and an offer renegotiates.
pub open spec fn jsep_post(
    pre: Server,
    post: Server,
    from: SessionId,
    text: Seq<char>,
    negotiated: Option<Negotiated>,
    out: Result<Json, SfuError>,
    ef: Seq<Effect>,
) -> bool {
    match spec_parse_jsep(text) {
        Result::Err(e) => out == Result::<Json, SfuError>::Err(e) && post == pre && ef.len() == 0,
        Result::Ok(OptionalField::Absent) => (out matches Result::Ok(j) && is_empty_object(j))
            && post == pre && ef.len() == 0,
        Result::Ok(OptionalField::Present(JsepKind::Answer { .. })) => (out matches Result::Ok(j)
            && is_empty_object(j)) && post == pre && ef.len() == 0,
        Result::Ok(OptionalField::Present(JsepKind::Offer { .. })) => offer_post(
            pre,
            post,
            from,
            negotiated,
            out,
            ef,
        ),
    }
}

/// What processing a message text leaves behind: parse failures are
/// reported, no message at all succeeds with an empty body, and a
/// decoded message runs its handler.
pub open spec fn message_post(
    pre: Server,
    post: Server,
    from: SessionId,
    text: Seq<char>,
    out: Result<(Json, Option<Json>), SfuError>,
    ef: Seq<Effect>,
) -> bool {
    match spec_parse_message(text) {
        Result::Err(e) => out == Result::<(Json, Option<Json>), SfuError>::Err(e) && post == pre
            && ef.len() == 0,
        Result::Ok(OptionalField::Absent) => (out matches Result::Ok((b, j)) && is_empty_object(b)
            && j is None) && post == pre && ef.len() == 0,
        Result::Ok(OptionalField::Present(m)) => match m {
            MessageKind::Join { room_id, user_id, subscribe } => join_post(
                pre,
                post,
                from,
                room_id,
                user_id,
                subscribe,
                out,
                ef,
            ),
            MessageKind::Subscribe { what } => subscribe_post(pre, post, from, what, out)
                && ef.len() == 0,
            MessageKind::Block { whom } => match out {
                Result::Ok((b, j)) => j is None && block_post(
                    pre,
                    post,
                    from,
                    whom,
                    Result::Ok(b),
                    ef,
                ),
                Result::Err(e) => block_post(pre, post, from, whom, Result::Err(e), ef),
            },
            MessageKind::Unblock { whom } => match out {
                Result::Ok((b, j)) => j is None && unblock_post(
                    pre,
                    post,
                    from,
                    whom,
                    Result::Ok(b),
                    ef,
                ),
                Result::Err(e) => unblock_post(pre, post, from, whom, Result::Err(e), ef),
            },
        },
    }
}

/// How the response to one raw message is framed from the outcome of
/// its message part and its JSEP part: any error wins and suppresses
/// the JSEP; otherwise the body reports success with the message
/// handler's body, and the JSEP answer rides along.
pub open spec fn framed(
    mres: Option<Result<(Json, Option<Json>), SfuError>>,
    jres: Option<Result<Json, SfuError>>,
    resp: Response,
) -> bool {
    match mres {
        Option::Some(Result::Err(e)) => is_error_envelope(resp.body, crate::errors::spec_error_text(e))
            && resp.jsep is None,
        Option::Some(Result::Ok((b, mj))) => match jres {
            Option::Some(Result::Err(e)) => is_error_envelope(
                resp.body,
                crate::errors::spec_error_text(e),
            ) && resp.jsep is None,
            Option::Some(Result::Ok(jr)) => is_success_envelope(resp.body, Option::Some(b))
                && resp.jsep == Option::Some(jr),
            Option::None => is_success_envelope(resp.body, Option::Some(b)) && resp.jsep == mj,
        },
        Option::None => match jres {
            Option::Some(Result::Err(e)) => is_error_envelope(
                resp.body,
                crate::errors::spec_error_text(e),
            ) && resp.jsep is None,
            Option::Some(Result::Ok(jr)) => is_success_envelope(resp.body, Option::None)
                && resp.jsep == Option::Some(jr),
            Option::None => is_success_envelope(resp.body, Option::None) && resp.jsep is None,
        },
    }
}

/// What a block leaves behind: the relation gains the pair, nothing
/// else moves, and the blocked user's sessions are told.
pub open spec fn block_post(
    pre: Server,
    post: Server,
    from: SessionId,
    whom: UserId,
    out: Result<Json, SfuError>,
    ef: Seq<Effect>,
) -> bool {
    match pre.block_error(from) {
        Option::Some(e) => {
            &&& out == Result::<Json, SfuError>::Err(e)
            &&& ef.len() == 0
            &&& post == pre
        },
        Option::None => {
            let me = user_of(pre.switchboard.sess(from));
            let room = room_of(pre.switchboard.sess(from));
            &&& out matches Result::Ok(b) && is_empty_object(b)
            &&& post.switchboard.sessions == pre.switchboard.sessions
            &&& post.switchboard.occupants == pre.switchboard.occupants
            &&& post.switchboard.edges == pre.switchboard.edges
            &&& (forall|x: Seq<char>, y: Seq<char>| #[trigger]
                post.switchboard.blocked(x, y) == (pre.switchboard.blocked(x, y) || (x == me && y
                    == whom@)))
            &&& user_broadcast_ok(pre.switchboard, "blocked"@, me, whom@, room, ef)
        },
    }
}

/// What an unblock leaves behind: the pair is gone, a publishing
/// target is asked for a keyframe, and the user's sessions are told.
pub open spec fn unblock_post(
    pre: Server,
    post: Server,
    from: SessionId,
    whom: UserId,
    out: Result<Json, SfuError>,
    ef: Seq<Effect>,
) -> bool {
    match pre.block_error(from) {
        Option::Some(e) => {
            &&& out == Result::<Json, SfuError>::Err(e)
            &&& ef.len() == 0
            &&& post == pre
        },
        Option::None => {
            let me = user_of(pre.switchboard.sess(from));
            let room = room_of(pre.switchboard.sess(from));
            &&& out matches Result::Ok(b) && is_empty_object(b)
            &&& post.switchboard.occupants == pre.switchboard.occupants
            &&& post.switchboard.edges == pre.switchboard.edges
            &&& (forall|x: Seq<char>, y: Seq<char>| #[trigger]
                post.switchboard.blocked(x, y) == (pre.switchboard.blocked(x, y) && !(x == me && y
                    == whom@)))
            &&& if exists|p: SessionId| pre.switchboard.is_publisher_for(whom@, p) {
                let p = ef[0]->SendRtcp_to;
                {
                    &&& ef.len() >= 1
                    &&& ef[0] is SendRtcp
                    &&& pre.switchboard.is_publisher_for(whom@, p)
                    &&& ef[0]->SendRtcp_packet@ == rtcp::spec_fir(pre.switchboard.sess(p).fir_seq)
                    &&& post.switchboard.sess(p).fir_seq == next_fir(
                        pre.switchboard.sess(p).fir_seq,
                    )
                    &&& same_but_fir(post.switchboard.sess(p), pre.switchboard.sess(p))
                    &&& (forall|t: SessionId|
                        pre.switchboard.valid_id(t) && t != p ==> #[trigger] post.switchboard.sess(
                            t,
                        ) == pre.switchboard.sess(t))
                    &&& user_broadcast_ok(
                        post.switchboard,
                        "unblocked"@,
                        me,
                        whom@,
                        room,
                        ef.skip(1),
                    )
                }
            } else {
                &&& post.switchboard.sessions == pre.switchboard.sessions
                &&& user_broadcast_ok(post.switchboard, "unblocked"@, me, whom@, room, ef)
            }
        },
    }
}

/// What a subscribe leaves behind.
pub open spec fn subscribe_post(
    pre: Server,
    post: Server,
    from: SessionId,
    what: Subscription,
    out: Result<(Json, Option<Json>), SfuError>,
) -> bool {
    match pre.subscribe_error(from, what) {
        Option::Some(e) => {
            &&& out == Result::<(Json, Option<Json>), SfuError>::Err(e)
            &&& post == pre
        },
        Option::None => {
            &&& post.switchboard.sess(from).subscription == Option::Some(what)
            &&& same_but_subscription(post.switchboard.sess(from), pre.switchboard.sess(from))
            &&& (forall|t: SessionId|
                t != from && pre.switchboard.valid_id(t) ==> #[trigger] post.switchboard.sess(t)
                    == pre.switchboard.sess(t))
            &&& post.switchboard.sessions@.len() == pre.switchboard.sessions@.len()
            &&& post.switchboard.occupants == pre.switchboard.occupants
            &&& post.switchboard.blocks == pre.switchboard.blocks
            &&& out matches Result::Ok((b, jsep)) && is_empty_object(b) && (match what.media {
                Option::Some(pu) => exists|p: SessionId|
                    {
                        &&& #[trigger] pre.switchboard.is_publisher_for(pu@, p)
                        &&& post.switchboard.edges@ == pre.switchboard.edges@.push((p, from))
                        &&& jsep matches Option::Some(j) && spec_decode_jsep(j) == Result::<
                            OptionalField<JsepKind>,
                            SfuError,
                        >::Ok(
                            OptionalField::Present(
                                JsepKind::Offer { sdp: pre.switchboard.sess(p).subscriber_offer->0 },
                            ),
                        )
                    },
                Option::None => post.switchboard.edges == pre.switchboard.edges && jsep is None,
            })
        },
    }
}

/// What a join leaves behind.
pub open spec fn join_post(
    pre: Server,
    post: Server,
    from: SessionId,
    room_id: RoomId,
    user_id: UserId,
    subscribe: Option<Subscription>,
    out: Result<(Json, Option<Json>), SfuError>,
    ef: Seq<Effect>,
) -> bool {
    match pre.join_error(from, room_id@, subscribe) {
        Option::Some(e) => {
            &&& out == Result::<(Json, Option<Json>), SfuError>::Err(e)
            &&& ef.len() == 0
            &&& post == pre
        },
        Option::None => {
            let master = subscribe is Some && subscribe->0.data;
            &&& post.switchboard.sess(from).join_state matches Option::Some(js) && js.room_id
                == room_id && js.user_id == user_id
            &&& post.switchboard.sess(from).subscription == (if subscribe is Some {
                subscribe
            } else {
                pre.switchboard.sess(from).subscription
            })
            &&& post.switchboard.sess(from).subscriber_offer == pre.switchboard.sess(
                from,
            ).subscriber_offer
            &&& post.switchboard.sess(from).fir_seq == pre.switchboard.sess(from).fir_seq
            &&& !post.switchboard.sess(from).destroyed
            &&& (forall|t: SessionId|
                t != from && pre.switchboard.valid_id(t) ==> #[trigger] post.switchboard.sess(t)
                    == pre.switchboard.sess(t))
            &&& post.switchboard.sessions@.len() == pre.switchboard.sessions@.len()
            &&& post.switchboard.blocks == pre.switchboard.blocks
            &&& (if master {
                &&& post.switchboard.is_occupant(room_id@, from)
                &&& post.switchboard.occupant_count(room_id@) == pre.switchboard.occupant_count(
                    room_id@,
                ) + 1
                &&& (forall|r2: Seq<char>, t: SessionId|
                    !(r2 == room_id@ && t == from) ==> #[trigger] post.switchboard.is_occupant(
                        r2,
                        t,
                    ) == pre.switchboard.is_occupant(r2, t))
                &&& (forall|r2: Seq<char>|
                    r2 != room_id@ ==> #[trigger] post.switchboard.occupant_count(r2)
                        == pre.switchboard.occupant_count(r2))
                &&& room_broadcast_ok(post.switchboard, "join"@, user_id@, room_id@, ef)
            } else {
                &&& post.switchboard.occupants == pre.switchboard.occupants
                &&& ef.len() == 0
            })
            &&& (if subscribe is Some && subscribe->0.media is Some {
                exists|p: SessionId|
                    {
                        &&& #[trigger] pre.switchboard.is_publisher_for(subscribe->0.media->0@, p)
                        &&& post.switchboard.edges@ == pre.switchboard.edges@.push((p, from))
                        &&& out matches Result::Ok((b, jsep)) && jsep matches Option::Some(j)
                            && spec_decode_jsep(j) == Result::<
                            OptionalField<JsepKind>,
                            SfuError,
                        >::Ok(
                            OptionalField::Present(
                                JsepKind::Offer { sdp: pre.switchboard.sess(p).subscriber_offer->0 },
                            ),
                        )
                    }
            } else {
                &&& post.switchboard.edges == pre.switchboard.edges
                &&& out matches Result::Ok((b, jsep)) && jsep is None
            })
            &&& out matches Result::Ok((b, jsep)) && is_users_body(
                b,
                room_id@,
                post.switchboard.users_of(room_id@),
            )
        },
    }
}

/// What destroying a session leaves behind: the session is out of
/// every index and marked destroyed, nothing else moves, and the
/// room's notification-subscribed occupants hear a leave exactly when
/// the session's user has no live session left.
pub open spec fn destroy_post(pre: Server, post: Server, s: SessionId, ef: Seq<Effect>) -> bool {
    &&& post.switchboard.sessions@.len() == pre.switchboard.sessions@.len()
    &&& post.switchboard.sess(s).destroyed
    &&& (forall|t: SessionId|
        t != s && pre.switchboard.valid_id(t) ==> #[trigger] post.switchboard.sess(t)
            == pre.switchboard.sess(t))
    &&& post.switchboard.blocks == pre.switchboard.blocks
    &&& (forall|r2: Seq<char>, t: SessionId| #[trigger]
        post.switchboard.is_occupant(r2, t) == (pre.switchboard.is_occupant(r2, t) && t != s))
    &&& (forall|p: SessionId, t: SessionId| #[trigger]
        post.switchboard.edge(p, t) == (pre.switchboard.edge(p, t) && p != s && t != s))
    &&& match pre.switchboard.sess(s).join_state {
        Option::Some(js) => {
            if !post.switchboard.user_connected(js.user_id@) {
                room_broadcast_ok(post.switchboard, "leave"@, js.user_id@, js.room_id@, ef)
            } else {
                ef.len() == 0
            }
        },
        Option::None => ef.len() == 0,
    }
}

impl Server {
    /// A fresh server with the given settings.
    pub fn new(config: Config) -> (srv: Server)
        ensures
            srv.wf(),
            srv.switchboard.sessions@.len() == 0,
            srv.config == config,
    {
        Server { switchboard: Switchboard::new(), config }
    }

    /// The server is well-formed when its switchboard is.
    pub open spec fn wf(self) -> bool {
        self.switchboard.wf()
    }

    /// Which error a subscribe from this session earns, if any:
    /// subscribing twice, or naming a user who is not publishing.
    pub open spec fn subscribe_error(self, from: SessionId, what: Subscription) -> Option<
        SfuError,
    > {
        if self.switchboard.sess(from).subscription is Some {
            Option::Some(SfuError::AlreadySubscribed)
        } else if what.media is Some && !(exists|p: SessionId|
            self.switchboard.is_publisher_for(what.media->0@, p)) {
            Option::Some(SfuError::NoSuchPublisher)
        } else {
            Option::None
        }
    }

    /// Which error a join earns, if any, in the order the checks run:
    /// joining twice, subscribing twice, a full room for a master
    /// handle, and a media subscription naming no publisher.
    pub open spec fn join_error(
        self,
        from: SessionId,
        room: Seq<char>,
        subscribe: Option<Subscription>,
    ) -> Option<SfuError> {
        if self.switchboard.sess(from).join_state is Some {
            Option::Some(SfuError::AlreadyJoined)
        } else if subscribe is Some && self.switchboard.sess(from).subscription is Some {
            Option::Some(SfuError::AlreadySubscribed)
        } else if subscribe is Some && subscribe->0.data && self.switchboard.occupant_count(room)
            >= self.config.max_room_size {
            Option::Some(SfuError::RoomFull)
        } else if subscribe is Some && subscribe->0.media is Some && !(exists|p: SessionId|
            self.switchboard.is_publisher_for(subscribe->0.media->0@, p)) {
            Option::Some(SfuError::NoSuchPublisher)
        } else {
            Option::None
        }
    }

    /// Set a session's subscription preferences, once; a media
    /// subscription answers with the publisher's cached offer.
    pub fn process_subscribe(&mut self, from: SessionId, what: Subscription) -> (out: Result<
        (Json, Option<Json>),
        SfuError,
    >)
        requires
            old(self).wf(),
            old(self).switchboard.live(from),
        ensures
            final(self).wf(),
            final(self).config == old(self).config,
            final(self).switchboard.live(from),
            subscribe_post(*old(self), *final(self), from, what, out),
    {
        if self.switchboard.sessions[from].subscription.is_some() {
            return Err(SfuError::AlreadySubscribed);
        }
        let ghost media_spec = what.media;
        let publisher: Option<(SessionId, String)> = match &what.media {
            Some(pu) => {
                match self.switchboard.get_publisher(pu) {
                    Some(p) => {
                        let sdp = match &self.switchboard.sessions[p].subscriber_offer {
                            Some(sdp) => sdp.clone(),
                            None => {
                                proof {
                                    assert(false);
                                }
                                return Err(SfuError::NoSuchPublisher);
                            },
                        };
                        Some((p, sdp))
                    },
                    None => {
                        return Err(SfuError::NoSuchPublisher);
                    },
                }
            },
            None => None,
        };
        proof {
            assert(media_spec is Some ==> publisher is Some);
        }
        let ghost pre = *self;
        let slot = &mut self.switchboard.sessions[from];
        slot.subscription = Some(what);
        proof {
            assert(self.switchboard.occupants == pre.switchboard.occupants);
            assert(forall|t: SessionId|
                t != from && pre.switchboard.valid_id(t) ==> #[trigger] self.switchboard.sess(t)
                    == pre.switchboard.sess(t));
            lemma_wf_set_fields(pre.switchboard, self.switchboard, from);
        }
        match publisher {
            Some((p, sdp)) => {
                proof {
                    assert(old(self).switchboard.is_publisher_for(media_spec->0@, p));
                    if p == from {
                        assert(self.switchboard.sess(p).join_state == old(self).switchboard.sess(
                            p,
                        ).join_state);
                    }
                    assert(!self.switchboard.edge(p, from)) by {
                        if self.switchboard.edge(p, from) {
                            let k = choose|k: int|
                                0 <= k < self.switchboard.edges@.len()
                                    && self.switchboard.edges@[k] == (p, from);
                            assert(old(self).switchboard.sess(from).subscription is Some);
                        }
                    }
                }
                let ghost sdp_spec = sdp@;
                let jsep = encode_jsep(&JsepKind::Offer { sdp });
                self.switchboard.subscribe_to_user(from, p);
                Ok((empty_object(), Some(jsep)))
            },
            None => {
                proof {
                    assert(media_spec is None);
                }
                Ok((empty_object(), None))
            },
        }
    }

    /// Claim a user identity in a room, optionally subscribing up
    /// front. A master handle is added to the room's occupants and the
    /// other occupants are told; a media subscription adds a forwarding
    /// edge and answers with the publisher's cached offer. The response
    /// body lists the users present once the join is done.
    pub fn process_join(
        &mut self,
        from: SessionId,
        room_id: RoomId,
        user_id: UserId,
        subscribe: Option<Subscription>,
    ) -> (out: (Result<(Json, Option<Json>), SfuError>, Vec<Effect>))
        requires
            old(self).wf(),
            old(self).switchboard.live(from),
        ensures
            final(self).wf(),
            final(self).config == old(self).config,
            final(self).switchboard.live(from),
            join_post(*old(self), *final(self), from, room_id, user_id, subscribe, out.0, out.1@),
    {
        if self.switchboard.sessions[from].join_state.is_some() {
            return (Err(SfuError::AlreadyJoined), Vec::new());
        }
        if subscribe.is_some() && self.switchboard.sessions[from].subscription.is_some() {
            return (Err(SfuError::AlreadySubscribed), Vec::new());
        }
        let is_master = match &subscribe {
            Some(s) => s.data,
            None => false,
        };
        if is_master {
            let occ = self.switchboard.occupants_of(&room_id);
            proof {
                crate::switchboard::lemma_room_at_props(self.switchboard.occupants@, room_id@);
                assert(occ@.len() == self.switchboard.occupant_count(room_id@));
            }
            if occ.len() >= self.config.max_room_size {
                return (Err(SfuError::RoomFull), Vec::new());
            }
        }
        let ghost media_spec = if subscribe is Some {
            subscribe->0.media
        } else {
            Option::<UserId>::None
        };
        let publisher: Option<(SessionId, String)> = match &subscribe {
            Some(s) => match &s.media {
                Some(pu) => {
                    match self.switchboard.get_publisher(pu) {
                        Some(p) => {
                            let sdp = match &self.switchboard.sessions[p].subscriber_offer {
                                Some(sdp) => sdp.clone(),
                                None => {
                                    proof {
                                        assert(false);
                                    }
                                    return (Err(SfuError::NoSuchPublisher), Vec::new());
                                },
                            };
                            Some((p, sdp))
                        },
                        None => {
                            return (Err(SfuError::NoSuchPublisher), Vec::new());
                        },
                    }
                },
                None => None,
            },
            None => None,
        };
        proof {
            assert(media_spec is Some ==> publisher is Some);
        }
        // Claim the identity, and the subscription if one was given.
        let ghost pre = *self;
        let has_subscribe = subscribe.is_some();
        let slot = &mut self.switchboard.sessions[from];
        slot.join_state = Some(JoinState::new(room_id.clone(), user_id.clone()));
        match subscribe {
            Some(sub) => {
                slot.subscription = Some(sub);
            },
            None => {},
        }
        proof {
            assert(forall|t: SessionId|
                t != from && pre.switchboard.valid_id(t) ==> #[trigger] self.switchboard.sess(t)
                    == pre.switchboard.sess(t));
            lemma_wf_set_fields(pre.switchboard, self.switchboard, from);
        }
        // A master handle becomes an occupant of the room.
        let ghost sb_mid = self.switchboard;
        if is_master {
            proof {
                assert(!self.switchboard.is_occupant(room_id@, from)) by {
                    crate::switchboard::lemma_room_at_props(self.switchboard.occupants@, room_id@);
                    if self.switchboard.is_occupant(room_id@, from) {
                        let ri = self.switchboard.room_at(room_id@)->0;
                        let k = choose|k: int|
                            0 <= k < self.switchboard.occupants@[ri].1@.len()
                                && self.switchboard.occupants@[ri].1@[k] == from;
                        assert(pre.switchboard.sess(from).join_state is Some);
                    }
                }
                assert(room_of(self.switchboard.sess(from)) == room_id@);
            }
            self.switchboard.join_room(from, &room_id);
        }
        let ghost sb_joined = self.switchboard;
        // A media subscription adds the forwarding edge.
        let jsep: Option<Json> = match publisher {
            Some((p, sdp)) => {
                proof {
                    assert(old(self).switchboard.is_publisher_for(media_spec->0@, p));
                    assert(p != from) by {
                        assert(old(self).switchboard.sess(p).join_state is Some);
                    }
                    assert(!self.switchboard.edge(p, from)) by {
                        if self.switchboard.edge(p, from) {
                            let k = choose|k: int|
                                0 <= k < self.switchboard.edges@.len()
                                    && self.switchboard.edges@[k] == (p, from);
                            assert(old(self).switchboard.sess(from).subscription is Some);
                        }
                    }
                }
                let j = encode_jsep(&JsepKind::Offer { sdp });
                self.switchboard.subscribe_to_user(from, p);
                Some(j)
            },
            None => None,
        };
        // Tell the other occupants, and list who is present now.
        let ef: Vec<Effect> = if is_master {
            notify_except(&self.switchboard, "join", &user_id, &room_id)
        } else {
            Vec::new()
        };
        let users = self.switchboard.get_users(&room_id);
        let body = users_body(&room_id, users);
        proof {
            if is_master {
                assert forall|r2: Seq<char>, t: SessionId|
                    !(r2 == room_id@ && t == from) implies #[trigger] self.switchboard.is_occupant(
                    r2,
                    t,
                ) == old(self).switchboard.is_occupant(r2, t) by {
                    assert(sb_mid.is_occupant(r2, t) == old(self).switchboard.is_occupant(r2, t));
                    assert(sb_joined.is_occupant(r2, t) == sb_mid.is_occupant(r2, t));
                    assert(self.switchboard.is_occupant(r2, t) == sb_joined.is_occupant(r2, t));
                }
                assert(self.switchboard.occupant_count(room_id@) == old(
                    self,
                ).switchboard.occupant_count(room_id@) + 1) by {
                    assert(sb_mid.occupant_count(room_id@) == old(self).switchboard.occupant_count(
                        room_id@,
                    ));
                    assert(sb_joined.occupant_count(room_id@) == sb_mid.occupant_count(room_id@)
                        + 1);
                }
                assert(self.switchboard.is_occupant(room_id@, from)) by {
                    assert(sb_joined.is_occupant(room_id@, from));
                }
                assert forall|r2: Seq<char>|
                    r2 != room_id@ implies #[trigger] self.switchboard.occupant_count(r2) == old(
                    self,
                ).switchboard.occupant_count(r2) by {
                    assert(sb_mid.occupant_count(r2) == old(self).switchboard.occupant_count(r2));
                    assert(sb_joined.occupant_count(r2) == sb_mid.occupant_count(r2));
                    assert(self.switchboard.occupant_count(r2) == sb_joined.occupant_count(r2));
                }
            }
        }
        (Ok((body, jsep)), ef)
    }

    /// Cache a publisher's renegotiated offer, pushing it to every
    /// current subscriber first, and answer with the negotiated SDP.
    /// The negotiation itself is the gateway's work; its result comes
    /// in as an argument and the handler fails without one.
    pub fn process_offer(&mut self, from: SessionId, negotiated: Option<&Negotiated>) -> (out: (
        Result<Json, SfuError>,
        Vec<Effect>,
    ))
        requires
            old(self).wf(),
            old(self).switchboard.live(from),
        ensures
            final(self).wf(),
            final(self).config == old(self).config,
            final(self).switchboard.live(from),
            offer_post(*old(self), *final(self), from, opt_deref(negotiated), out.0, out.1@),
    {
        let n = match negotiated {
            Some(n) => n,
            None => {
                return (Err(SfuError::NegotiationUnavailable), Vec::new());
            },
        };
        let subs = self.switchboard.subscribers_to(from);
        let m: usize = subs.len();
        let mut ef: Vec<Effect> = Vec::new();
        let mut i: usize = 0;
        while i < m
            invariant
                self.wf(),
                m == subs@.len(),
                0 <= i <= m,
                subs@.no_duplicates(),
                forall|t: SessionId| #[trigger] subs@.contains(t) <==> self.switchboard.edge(
                    from,
                    t,
                ),
                ef@.len() == i,
                forall|k: int|
                    0 <= k < i ==> match #[trigger] ef@[k] {
                        Effect::PushEvent { to, body, jsep } => {
                            &&& to == subs@[k]
                            &&& self.switchboard.edge(from, to)
                            &&& is_empty_object(body)
                            &&& jsep matches Option::Some(j) && spec_decode_jsep(j) == Result::<
                                OptionalField<JsepKind>,
                                SfuError,
                            >::Ok(
                                OptionalField::Present(
                                    JsepKind::Offer { sdp: n.subscriber_offer_sdp },
                                ),
                            )
                        },
                        _ => false,
                    },
            decreases m - i,
        {
            let t = subs[i];
            proof {
                assert(subs@.contains(t)) by {
                    assert(subs@[i as int] == t);
                }
            }
            let j = encode_jsep(&JsepKind::Offer { sdp: n.subscriber_offer_sdp.clone() });
            ef.push(Effect::PushEvent { to: t, body: empty_object(), jsep: Some(j) });
            i += 1;
        }
        proof {
            assert(reoffer_broadcast_ok(
                self.switchboard,
                from,
                n.subscriber_offer_sdp,
                ef@,
            )) by {
                assert forall|t: SessionId| #[trigger]
                    self.switchboard.edge(from, t) implies exists|k: int|
                    0 <= k < ef@.len() && #[trigger] ef@[k] is PushEvent && ef@[k]->PushEvent_to
                        == t by {
                    assert(subs@.contains(t));
                    let q = choose|q: int| 0 <= q < subs@.len() && subs@[q] == t;
                    assert(ef@[q] is PushEvent && ef@[q]->PushEvent_to == t);
                }
                assert forall|k1: int, k2: int|
                    0 <= k1 < k2 < ef@.len() implies #[trigger] ef@[k1]->PushEvent_to
                    != #[trigger] ef@[k2]->PushEvent_to by {
                    assert(ef@[k1]->PushEvent_to == subs@[k1]);
                    assert(ef@[k2]->PushEvent_to == subs@[k2]);
                }
            }
        }
        let ghost pre = *self;
        let slot = &mut self.switchboard.sessions[from];
        slot.subscriber_offer = Some(n.subscriber_offer_sdp.clone());
        proof {
            assert(forall|t: SessionId|
                t != from && pre.switchboard.valid_id(t) ==> #[trigger] self.switchboard.sess(t)
                    == pre.switchboard.sess(t));
            lemma_wf_set_offer(pre.switchboard, self.switchboard, from);
        }
        let answer = encode_jsep(&JsepKind::Answer { sdp: n.answer_sdp.clone() });
        (Ok(answer), ef)
    }

    /// Accept an SDP answer as a no-op success: the publisher path
    /// owns the negotiation.
    pub fn process_answer(&self, _from: SessionId) -> (r: Result<Json, SfuError>)
        ensures
            r matches Result::Ok(j) && is_empty_object(j),
    {
        Ok(empty_object())
    }

    /// Decode and process one JSEP text.
    pub fn process_jsep(&mut self, from: SessionId, text: &str, negotiated: Option<&Negotiated>)
        -> (out: (Result<Json, SfuError>, Vec<Effect>))
        requires
            old(self).wf(),
            old(self).switchboard.live(from),
        ensures
            final(self).wf(),
            final(self).config == old(self).config,
            final(self).switchboard.live(from),
            jsep_post(
                *old(self),
                *final(self),
                from,
                text@,
                opt_deref(negotiated),
                out.0,
                out.1@,
            ),
    {
        match parse_jsep(text) {
            Err(e) => (Err(e), Vec::new()),
            Ok(OptionalField::Absent) => (Ok(empty_object()), Vec::new()),
            Ok(OptionalField::Present(JsepKind::Offer { sdp: _ })) => self.process_offer(
                from,
                negotiated,
            ),
            Ok(OptionalField::Present(JsepKind::Answer { sdp: _ })) => (
                self.process_answer(from),
                Vec::new(),
            ),
        }
    }

    /// Decode and process one message text.
    pub fn process_message(&mut self, from: SessionId, text: &str) -> (out: (
        Result<(Json, Option<Json>), SfuError>,
        Vec<Effect>,
    ))
        requires
            old(self).wf(),
            old(self).switchboard.live(from),
        ensures
            final(self).wf(),
            final(self).config == old(self).config,
            final(self).switchboard.live(from),
            message_post(*old(self), *final(self), from, text@, out.0, out.1@),
    {
        match parse_message(text) {
            Err(e) => (Err(e), Vec::new()),
            Ok(OptionalField::Absent) => (Ok((empty_object(), None)), Vec::new()),
            Ok(OptionalField::Present(kind)) => match kind {
                MessageKind::Join { room_id, user_id, subscribe } => self.process_join(
                    from,
                    room_id,
                    user_id,
                    subscribe,
                ),
                MessageKind::Subscribe { what } => (
                    self.process_subscribe(from, what),
                    Vec::new(),
                ),
                MessageKind::Block { whom } => {
                    let (r, ef) = self.process_block(from, &whom);
                    match r {
                        Ok(b) => (Ok((b, None)), ef),
                        Err(e) => (Err(e), ef),
                    }
                },
                MessageKind::Unblock { whom } => {
                    let (r, ef) = self.process_unblock(from, &whom);
                    match r {
                        Ok(b) => (Ok((b, None)), ef),
                        Err(e) => (Err(e), ef),
                    }
                },
            },
        }
    }

    /// Handle one raw signalling message: decode and process the
    /// message part, then the JSEP part, and frame exactly one
    /// response for the sender. A message whose session is gone is
    /// dropped without a response and without effects.
    pub fn handle_message(
        &mut self,
        from: SessionId,
        msg: Option<&String>,
        jsep: Option<&String>,
        negotiated: Option<&Negotiated>,
    ) -> (out: (Vec<Effect>, Option<Response>))
        requires
            old(self).wf(),
        ensures
            final(self).wf(),
            final(self).config == old(self).config,
            !old(self).switchboard.live(from) ==> *final(self) == *old(self) && out.0@.len() == 0
                && out.1 is None,
            old(self).switchboard.live(from) ==> (out.1 matches Option::Some(resp) && (exists|
                mid: Server,
                mres: Option<Result<(Json, Option<Json>), SfuError>>,
                jres: Option<Result<Json, SfuError>>,
                mef: Seq<Effect>,
                jef: Seq<Effect>,
            |
                #![trigger framed(mres, jres, resp), mef + jef, mid.wf()]
                {
                    &&& mid.wf()
                    &&& (match msg {
                        Option::Some(mt) => mres matches Option::Some(r) && message_post(
                            *old(self),
                            mid,
                            from,
                            mt@,
                            r,
                            mef,
                        ),
                        Option::None => mres is None && mid == *old(self) && mef.len() == 0,
                    })
                    &&& (match jsep {
                        Option::Some(jt) => jres matches Option::Some(r) && jsep_post(
                            mid,
                            *final(self),
                            from,
                            jt@,
                            opt_deref(negotiated),
                            r,
                            jef,
                        ),
                        Option::None => jres is None && *final(self) == mid && jef.len() == 0,
                    })
                    &&& out.0@ == mef + jef
                    &&& framed(mres, jres, resp)
                })),
    {
        if from >= self.switchboard.sessions.len() {
            return (Vec::new(), None);
        }
        if self.switchboard.sessions[from].destroyed {
            return (Vec::new(), None);
        }
        let (mres, mut ef): (Option<Result<(Json, Option<Json>), SfuError>>, Vec<Effect>) =
            match msg {
            Some(mt) => {
                let (r, e) = self.process_message(from, mt.as_str());
                (Some(r), e)
            },
            None => (None, Vec::new()),
        };
        let ghost mid = *self;
        let ghost mef = ef@;
        let (jres, mut jef): (Option<Result<Json, SfuError>>, Vec<Effect>) = match jsep {
            Some(jt) => {
                let (r, e) = self.process_jsep(from, jt.as_str(), negotiated);
                (Some(r), e)
            },
            None => (None, Vec::new()),
        };
        let ghost jefg = jef@;
        ef.append(&mut jef);
        let ghost gm = mres;
        let ghost gj = jres;
        let response: Response = match (mres, jres) {
            (Some(Err(e)), _) => Response { body: error_envelope(e), jsep: None },
            (Some(Ok((b, _mj))), Some(Err(e))) => Response { body: error_envelope(e), jsep: None },
            (None, Some(Err(e))) => Response { body: error_envelope(e), jsep: None },
            (Some(Ok((b, _mj))), Some(Ok(jr))) => Response {
                body: success_envelope(Some(b)),
                jsep: Some(jr),
            },
            (Some(Ok((b, mj))), None) => Response { body: success_envelope(Some(b)), jsep: mj },
            (None, Some(Ok(jr))) => Response { body: success_envelope(None), jsep: Some(jr) },
            (None, None) => Response { body: success_envelope(None), jsep: None },
        };
        proof {
            assert(framed(gm, gj, response));
            assert(ef@ == mef + jefg);
        }
        (ef, Some(response))
    }

    /// Open a session for a new connection and hand back its identity.
    pub fn create_session(&mut self) -> (s: SessionId)
        requires
            old(self).wf(),
        ensures
            final(self).wf(),
            final(self).config == old(self).config,
            s == old(self).switchboard.sessions@.len(),
            final(self).switchboard.live(s),
            final(self).switchboard.sess(s).join_state is None,
            final(self).switchboard.sess(s).subscription is None,
            final(self).switchboard.sess(s).subscriber_offer is None,
            final(self).switchboard.sess(s).fir_seq == 0,
            forall|t: SessionId|
                old(self).switchboard.valid_id(t) ==> #[trigger] final(self).switchboard.sess(t)
                    == old(self).switchboard.sess(t),
            final(self).switchboard.occupants == old(self).switchboard.occupants,
            final(self).switchboard.edges == old(self).switchboard.edges,
            final(self).switchboard.blocks == old(self).switchboard.blocks,
    {
        self.switchboard.connect()
    }

    /// Close a connection: unlink the session from every index and
    /// mark it destroyed. When its user has no other live session
    /// left, the room's notification-subscribed occupants are told the
    /// user left — exactly this once, since afterwards the user is
    /// gone and every later session of the same name joins afresh.
    pub fn destroy_session(&mut self, s: SessionId) -> (ef: Vec<Effect>)
        requires
            old(self).wf(),
            old(self).switchboard.live(s),
        ensures
            final(self).wf(),
            final(self).config == old(self).config,
            destroy_post(*old(self), *final(self), s, ef@),
    {
        let joined: Option<(RoomId, UserId)> = match &self.switchboard.sessions[s].join_state {
            Some(js) => Some((js.room_id.clone(), js.user_id.clone())),
            None => None,
        };
        proof {
            match old(self).switchboard.sess(s).join_state {
                Option::Some(js) => {
                    assert(joined matches Option::Some((r, u)) && r@ == js.room_id@ && u@
                        == js.user_id@);
                },
                Option::None => {
                    assert(joined is None);
                },
            }
        }
        self.switchboard.remove_session(s);
        match joined {
            Some((room, user)) => {
                if !self.switchboard.is_connected(&user) {
                    notify_except(&self.switchboard, "leave", &user, &room)
                } else {
                    Vec::new()
                }
            },
            None => Vec::new(),
        }
    }

    /// What a burst of keyframe requests toward the publishers a
    /// session subscribes to leaves behind: exactly one full intra
    /// request per such publisher, carrying that publisher's counter,
    /// which then advances; nothing else moves.
    pub open spec fn fir_burst_ok(
        pre: Switchboard,
        post: Switchboard,
        s: SessionId,
        ef: Seq<Effect>,
    ) -> bool {
        &&& (forall|k: int|
            0 <= k < ef.len() ==> (#[trigger] ef[k]) is SendRtcp && pre.media_sender(
                s,
                ef[k]->SendRtcp_to,
            ) && ef[k]->SendRtcp_packet@ == rtcp::spec_fir(pre.sess(ef[k]->SendRtcp_to).fir_seq))
        &&& (forall|p: SessionId| #[trigger]
            pre.media_sender(s, p) ==> exists|k: int|
                0 <= k < ef.len() && (#[trigger] ef[k])->SendRtcp_to == p)
        &&& (forall|k1: int, k2: int|
            0 <= k1 < k2 < ef.len() ==> #[trigger] ef[k1]->SendRtcp_to
                != #[trigger] ef[k2]->SendRtcp_to)
        &&& (forall|p: SessionId| #[trigger]
            pre.media_sender(s, p) ==> post.sess(p).fir_seq == next_fir(pre.sess(p).fir_seq)
                && same_but_fir(post.sess(p), pre.sess(p)))
        &&& (forall|t: SessionId|
            pre.valid_id(t) && !pre.media_sender(s, t) ==> #[trigger] post.sess(t) == pre.sess(
                t,
            ))
        &&& post.sessions@.len() == pre.sessions@.len()
        &&& post.occupants == pre.occupants
        &&& post.edges == pre.edges
        &&& post.blocks == pre.blocks
    }

    /// Ask every publisher this session subscribes to for a keyframe:
    /// called when the gateway reports the session's media is live, so
    /// the fresh subscriber gets a picture promptly.
    pub fn setup_media(&mut self, s: SessionId) -> (ef: Vec<Effect>)
        requires
            old(self).wf(),
            old(self).switchboard.valid_id(s),
        ensures
            final(self).wf(),
            final(self).config == old(self).config,
            Server::fir_burst_ok(old(self).switchboard, final(self).switchboard, s, ef@),
    {
        let targets = self.switchboard.media_senders_to(s);
        proof {
            assert forall|k: int| 0 <= k < targets@.len() implies old(self).switchboard.valid_id(
                #[trigger] targets@[k],
            ) by {
                assert(targets@.contains(targets@[k]));
            }
        }
        let ef = send_fir(&mut self.switchboard, &targets);
        proof {
            assert forall|k: int|
                0 <= k < ef@.len() implies (#[trigger] ef@[k]) is SendRtcp && old(
                self,
            ).switchboard.media_sender(s, ef@[k]->SendRtcp_to) && ef@[k]->SendRtcp_packet@
                == rtcp::spec_fir(
                old(self).switchboard.sess(ef@[k]->SendRtcp_to).fir_seq,
            ) by {
                assert(ef@[k]->SendRtcp_to == targets@[k]);
                assert(targets@.contains(targets@[k]));
            }
            assert forall|p: SessionId| #[trigger]
                old(self).switchboard.media_sender(s, p) implies exists|k: int|
                0 <= k < ef@.len() && (#[trigger] ef@[k])->SendRtcp_to == p by {
                assert(targets@.contains(p));
                let q = choose|q: int| 0 <= q < targets@.len() && targets@[q] == p;
                assert(ef@[q]->SendRtcp_to == p);
            }
            assert forall|k1: int, k2: int|
                0 <= k1 < k2 < ef@.len() implies #[trigger] ef@[k1]->SendRtcp_to
                != #[trigger] ef@[k2]->SendRtcp_to by {
                assert(ef@[k1]->SendRtcp_to == targets@[k1]);
                assert(ef@[k2]->SendRtcp_to == targets@[k2]);
            }
            assert forall|p: SessionId| #[trigger]
                old(self).switchboard.media_sender(s, p) implies self.switchboard.sess(
                p,
            ).fir_seq == next_fir(old(self).switchboard.sess(p).fir_seq) && same_but_fir(
                self.switchboard.sess(p),
                old(self).switchboard.sess(p),
            ) by {
                assert(targets@.contains(p));
                let q = choose|q: int| 0 <= q < targets@.len() && targets@[q] == p;
            }
            assert forall|t: SessionId|
                old(self).switchboard.valid_id(t) && !old(self).switchboard.media_sender(
                    s,
                    t,
                ) implies #[trigger] self.switchboard.sess(t) == old(self).switchboard.sess(t) by {
                assert(!targets@.contains(t));
            }
        }
        ef
    }

    /// The relay decision for one RTP packet: forward it to every
    /// media recipient of the sender. A session that has not joined
    /// reaches nobody.
    pub fn incoming_rtp(&self, s: SessionId) -> (ef: Vec<Effect>)
        requires
            self.wf(),
            self.switchboard.valid_id(s),
        ensures
            forall|k: int|
                0 <= k < ef@.len() ==> (#[trigger] ef@[k]) is RelayRtp
                    && self.switchboard.media_recipient(s, ef@[k]->RelayRtp_to),
            forall|t: SessionId| #[trigger]
                self.switchboard.media_recipient(s, t) ==> exists|k: int|
                    0 <= k < ef@.len() && (#[trigger] ef@[k])->RelayRtp_to == t,
            forall|k1: int, k2: int|
                0 <= k1 < k2 < ef@.len() ==> #[trigger] ef@[k1]->RelayRtp_to
                    != #[trigger] ef@[k2]->RelayRtp_to,
            self.switchboard.sess(s).join_state is None ==> ef@.len() == 0,
    {
        let targets = self.switchboard.media_recipients_for(s);
        let n: usize = targets.len();
        let mut ef: Vec<Effect> = Vec::new();
        let mut i: usize = 0;
        while i < n
            invariant
                n == targets@.len(),
                0 <= i <= n,
                ef@.len() == i,
                forall|k: int|
                    0 <= k < i ==> (#[trigger] ef@[k]) is RelayRtp && ef@[k]->RelayRtp_to
                        == targets@[k],
            decreases n - i,
        {
            ef.push(Effect::RelayRtp { to: targets[i] });
            i += 1;
        }
        proof {
            assert forall|k: int|
                0 <= k < ef@.len() implies (#[trigger] ef@[k]) is RelayRtp
                && self.switchboard.media_recipient(s, ef@[k]->RelayRtp_to) by {
                assert(targets@.contains(targets@[k]));
            }
            assert forall|t: SessionId| #[trigger]
                self.switchboard.media_recipient(s, t) implies exists|k: int|
                0 <= k < ef@.len() && (#[trigger] ef@[k])->RelayRtp_to == t by {
                assert(targets@.contains(t));
                let q = choose|q: int| 0 <= q < targets@.len() && targets@[q] == t;
                assert(ef@[q]->RelayRtp_to == t);
            }
            if self.switchboard.sess(s).join_state is None {
                assert(ef@.len() == 0) by {
                    if ef@.len() > 0 {
                        assert(self.switchboard.media_recipient(s, ef@[0]->RelayRtp_to));
                        let e = (s, ef@[0]->RelayRtp_to);
                        let q = choose|q: int|
                            0 <= q < self.switchboard.edges@.len() && self.switchboard.edges@[q]
                                == e;
                    }
                }
            }
        }
        ef
    }

    /// The relay decision for one data-channel message: forward it to
    /// the sender's room cohabitants, blocks and self excluded.
    pub fn incoming_data(&self, s: SessionId) -> (ef: Vec<Effect>)
        requires
            self.wf(),
            self.switchboard.valid_id(s),
        ensures
            forall|k: int|
                0 <= k < ef@.len() ==> (#[trigger] ef@[k]) is RelayData
                    && self.switchboard.data_recipient(s, ef@[k]->RelayData_to),
            forall|t: SessionId| #[trigger]
                self.switchboard.data_recipient(s, t) ==> exists|k: int|
                    0 <= k < ef@.len() && (#[trigger] ef@[k])->RelayData_to == t,
            forall|k1: int, k2: int|
                0 <= k1 < k2 < ef@.len() ==> #[trigger] ef@[k1]->RelayData_to
                    != #[trigger] ef@[k2]->RelayData_to,
            self.switchboard.sess(s).join_state is None ==> ef@.len() == 0,
    {
        let targets = self.switchboard.data_recipients_for(s);
        let n: usize = targets.len();
        let mut ef: Vec<Effect> = Vec::new();
        let mut i: usize = 0;
        while i < n
            invariant
                n == targets@.len(),
                0 <= i <= n,
                ef@.len() == i,
                forall|k: int|
                    0 <= k < i ==> (#[trigger] ef@[k]) is RelayData && ef@[k]->RelayData_to
                        == targets@[k],
            decreases n - i,
        {
            ef.push(Effect::RelayData { to: targets[i] });
            i += 1;
        }
        proof {
            assert forall|k: int|
                0 <= k < ef@.len() implies (#[trigger] ef@[k]) is RelayData
                && self.switchboard.data_recipient(s, ef@[k]->RelayData_to) by {
                assert(targets@.contains(targets@[k]));
            }
            assert forall|t: SessionId| #[trigger]
                self.switchboard.data_recipient(s, t) implies exists|k: int|
                0 <= k < ef@.len() && (#[trigger] ef@[k])->RelayData_to == t by {
                assert(targets@.contains(t));
                let q = choose|q: int| 0 <= q < targets@.len() && targets@[q] == t;
                assert(ef@[q]->RelayData_to == t);
            }
            if self.switchboard.sess(s).join_state is None {
                assert(ef@.len() == 0) by {
                    if ef@.len() > 0 {
                        assert(self.switchboard.data_recipient(s, ef@[0]->RelayData_to));
                    }
                }
            }
        }
        ef
    }

    /// The relay decision for one RTCP packet: a video picture loss
    /// indication or full intra request is turned around as a fresh
    /// keyframe request toward the publishers the sender subscribes
    /// to; anything else is forwarded like media.
    pub fn incoming_rtcp(&mut self, s: SessionId, video: bool, packet: &[u8]) -> (ef: Vec<Effect>)
        requires
            old(self).wf(),
            old(self).switchboard.valid_id(s),
        ensures
            final(self).wf(),
            final(self).config == old(self).config,
            if video && rtcp::spec_has_pli(packet@) {
                &&& *final(self) == *old(self)
                &&& (forall|k: int|
                    0 <= k < ef@.len() ==> (#[trigger] ef@[k]) is SendRtcp
                        && old(self).switchboard.media_sender(s, ef@[k]->SendRtcp_to)
                        && ef@[k]->SendRtcp_packet@ == rtcp::spec_pli())
                &&& (forall|p: SessionId| #[trigger]
                    old(self).switchboard.media_sender(s, p) ==> exists|k: int|
                        0 <= k < ef@.len() && (#[trigger] ef@[k])->SendRtcp_to == p)
                &&& (forall|k1: int, k2: int|
                    0 <= k1 < k2 < ef@.len() ==> #[trigger] ef@[k1]->SendRtcp_to
                        != #[trigger] ef@[k2]->SendRtcp_to)
            } else if video && rtcp::spec_has_fir(packet@) {
                Server::fir_burst_ok(old(self).switchboard, final(self).switchboard, s, ef@)
            } else {
                &&& *final(self) == *old(self)
                &&& (forall|k: int|
                    0 <= k < ef@.len() ==> (#[trigger] ef@[k]) is RelayRtcp
                        && old(self).switchboard.media_recipient(s, ef@[k]->RelayRtcp_to))
                &&& (forall|t: SessionId| #[trigger]
                    old(self).switchboard.media_recipient(s, t) ==> exists|k: int|
                        0 <= k < ef@.len() && (#[trigger] ef@[k])->RelayRtcp_to == t)
                &&& (forall|k1: int, k2: int|
                    0 <= k1 < k2 < ef@.len() ==> #[trigger] ef@[k1]->RelayRtcp_to
                        != #[trigger] ef@[k2]->RelayRtcp_to)
            },
    {
        if video && rtcp::has_pli(packet) {
            let targets = self.switchboard.media_senders_to(s);
            let ef = send_pli(&targets);
            proof {
                assert forall|k: int|
                    0 <= k < ef@.len() implies (#[trigger] ef@[k]) is SendRtcp
                    && old(self).switchboard.media_sender(s, ef@[k]->SendRtcp_to)
                    && ef@[k]->SendRtcp_packet@ == rtcp::spec_pli() by {
                    assert(ef@[k]->SendRtcp_to == targets@[k]);
                    assert(targets@.contains(targets@[k]));
                }
                assert forall|p: SessionId| #[trigger]
                    old(self).switchboard.media_sender(s, p) implies exists|k: int|
                    0 <= k < ef@.len() && (#[trigger] ef@[k])->SendRtcp_to == p by {
                    assert(targets@.contains(p));
                    let q = choose|q: int| 0 <= q < targets@.len() && targets@[q] == p;
                    assert(ef@[q]->SendRtcp_to == p);
                }
                assert forall|k1: int, k2: int|
                    0 <= k1 < k2 < ef@.len() implies #[trigger] ef@[k1]->SendRtcp_to
                    != #[trigger] ef@[k2]->SendRtcp_to by {
                    assert(ef@[k1]->SendRtcp_to == targets@[k1]);
                    assert(ef@[k2]->SendRtcp_to == targets@[k2]);
                }
            }
            ef
        } else if video && rtcp::has_fir(packet) {
            self.setup_media(s)
        } else {
            let targets = self.switchboard.media_recipients_for(s);
            let n: usize = targets.len();
            let mut ef: Vec<Effect> = Vec::new();
            let mut i: usize = 0;
            while i < n
                invariant
                    n == targets@.len(),
                    0 <= i <= n,
                    ef@.len() == i,
                    forall|k: int|
                        0 <= k < i ==> (#[trigger] ef@[k]) is RelayRtcp && ef@[k]->RelayRtcp_to
                            == targets@[k],
                decreases n - i,
            {
                ef.push(Effect::RelayRtcp { to: targets[i] });
                i += 1;
            }
            proof {
                assert forall|k: int|
                    0 <= k < ef@.len() implies (#[trigger] ef@[k]) is RelayRtcp
                    && old(self).switchboard.media_recipient(s, ef@[k]->RelayRtcp_to) by {
                    assert(targets@.contains(targets@[k]));
                }
                assert forall|t: SessionId| #[trigger]
                    old(self).switchboard.media_recipient(s, t) implies exists|k: int|
                    0 <= k < ef@.len() && (#[trigger] ef@[k])->RelayRtcp_to == t by {
                    assert(targets@.contains(t));
                    let q = choose|q: int| 0 <= q < targets@.len() && targets@[q] == t;
                    assert(ef@[q]->RelayRtcp_to == t);
                }
            }
            ef
        }
    }

    /// Which error a block or unblock from this session earns, if any.
    pub open spec fn block_error(self, from: SessionId) -> Option<SfuError> {
        if self.switchboard.sess(from).join_state is None {
            Option::Some(SfuError::NotInRoom)
        } else {
            Option::None
        }
    }

    /// Stop traffic between the sender's user and another user, and
    /// tell the blocked user's sessions so.
    pub fn process_block(&mut self, from: SessionId, whom: &UserId) -> (out: (
        Result<Json, SfuError>,
        Vec<Effect>,
    ))
        requires
            old(self).wf(),
            old(self).switchboard.live(from),
        ensures
            final(self).wf(),
            final(self).config == old(self).config,
            final(self).switchboard.live(from),
            block_post(*old(self), *final(self), from, *whom, out.0, out.1@),
    {
        let (me, room) = match &self.switchboard.sessions[from].join_state {
            Some(js) => (js.user_id.clone(), js.room_id.clone()),
            None => {
                return (Err(SfuError::NotInRoom), Vec::new());
            },
        };
        proof {
            assert(me@ == user_of(self.switchboard.sess(from)));
            assert(room@ == room_of(self.switchboard.sess(from)));
        }
        let ef = notify_user(&self.switchboard, "blocked", &me, whom, &room);
        self.switchboard.establish_block(me, whom.clone());
        (Ok(empty_object()), ef)
    }

    /// Lift a block; if the unblocked user is publishing, ask their
    /// publisher for a keyframe, and tell their sessions.
    pub fn process_unblock(&mut self, from: SessionId, whom: &UserId) -> (out: (
        Result<Json, SfuError>,
        Vec<Effect>,
    ))
        requires
            old(self).wf(),
            old(self).switchboard.live(from),
        ensures
            final(self).wf(),
            final(self).config == old(self).config,
            final(self).switchboard.live(from),
            unblock_post(*old(self), *final(self), from, *whom, out.0, out.1@),
    {
        let (me, room) = match &self.switchboard.sessions[from].join_state {
            Some(js) => (js.user_id.clone(), js.room_id.clone()),
            None => {
                return (Err(SfuError::NotInRoom), Vec::new());
            },
        };
        proof {
            assert(me@ == user_of(self.switchboard.sess(from)));
            assert(room@ == room_of(self.switchboard.sess(from)));
        }
        self.switchboard.lift_block(&me, whom);
        let ghost sb_lift = self.switchboard;
        let publisher = self.switchboard.get_publisher(whom);
        proof {
            assert forall|p: SessionId| sb_lift.is_publisher_for(whom@, p) == old(
                self,
            ).switchboard.is_publisher_for(whom@, p) by {}
        }
        let mut ef: Vec<Effect> = match publisher {
            Some(p) => {
                let mut targets: Vec<SessionId> = Vec::new();
                targets.push(p);
                proof {
                    assert(targets@.no_duplicates());
                    assert(old(self).switchboard.is_publisher_for(whom@, p));
                }
                send_fir(&mut self.switchboard, &targets)
            },
            None => Vec::new(),
        };
        let ghost sb_fir = self.switchboard;
        let mut notices = notify_user(&self.switchboard, "unblocked", &me, whom, &room);
        let ghost fir_part = ef@;
        let ghost notice_part = notices@;
        ef.append(&mut notices);
        proof {
            assert forall|x: Seq<char>, y: Seq<char>| #[trigger] self.switchboard.blocked(x, y)
                == (old(self).switchboard.blocked(x, y) && !(x == me@ && y == whom@)) by {
                assert(self.switchboard.blocks == sb_lift.blocks);
                assert(sb_lift.blocked(x, y) == (old(self).switchboard.blocked(x, y) && !(x == me@
                    && y == whom@)));
            }
            match publisher {
                Option::Some(p) => {
                    assert(ef@.skip(1) =~= notice_part);
                    assert(ef@[0] == fir_part[0]);
                    assert(old(self).switchboard.is_publisher_for(whom@, p));
                    assert(ef@[0] is SendRtcp && ef@[0]->SendRtcp_to == p);
                    assert(ef@[0]->SendRtcp_packet@ == rtcp::spec_fir(
                        old(self).switchboard.sess(p).fir_seq,
                    ));
                    assert(self.switchboard.sess(p).fir_seq == next_fir(
                        old(self).switchboard.sess(p).fir_seq,
                    ));
                    assert(same_but_fir(self.switchboard.sess(p), old(self).switchboard.sess(p)));
                    assert(forall|t: SessionId|
                        old(self).switchboard.valid_id(t) && t != p
                            ==> #[trigger] self.switchboard.sess(t) == old(
                            self,
                        ).switchboard.sess(t));
                    assert(user_broadcast_ok(
                        self.switchboard,
                        "unblocked"@,
                        me@,
                        whom@,
                        room@,
                        ef@.skip(1),
                    ));
                },
                Option::None => {
                    assert(ef@ =~= notice_part);
                    assert forall|p: SessionId| !old(self).switchboard.is_publisher_for(
                        whom@,
                        p,
                    ) by {
                        assert(!sb_lift.is_publisher_for(whom@, p));
                    }
                },
            }
        }
        (Ok(empty_object()), ef)
    }
}

// ---------------------------------------------------------------------
// Laws
// ---------------------------------------------------------------------

/// A session joins at most once: after any successful join, a second
/// join — whatever room, user or subscription it names — fails with
/// the join-twice error and changes nothing.
pub proof fn lemma_single_join(
    pre: Server,
    mid: Server,
    post: Server,
    from: SessionId,
    room1: RoomId,
    user1: UserId,
    sub1: Option<Subscription>,
    out1: Result<(Json, Option<Json>), SfuError>,
    ef1: Seq<Effect>,
    room2: RoomId,
    user2: UserId,
    sub2: Option<Subscription>,
    out2: Result<(Json, Option<Json>), SfuError>,
    ef2: Seq<Effect>,
)
    requires
        pre.join_error(from, room1@, sub1) is None,
        join_post(pre, mid, from, room1, user1, sub1, out1, ef1),
        join_post(mid, post, from, room2, user2, sub2, out2, ef2),
    ensures
        out2 == Result::<(Json, Option<Json>), SfuError>::Err(SfuError::AlreadyJoined),
        ef2.len() == 0,
        post == mid,
{
    assert(mid.switchboard.sess(from).join_state is Some);
    assert(mid.join_error(from, room2@, sub2) == Option::Some(SfuError::AlreadyJoined));
}

/// A full room admits no further master handle: when a room already
/// holds as many masters as the settings allow, a master join into it
/// fails with the room-full error, and the occupant count stands.
pub proof fn lemma_room_capacity(
    pre: Server,
    post: Server,
    from: SessionId,
    room: RoomId,
    user: UserId,
    sub: Option<Subscription>,
    out: Result<(Json, Option<Json>), SfuError>,
    ef: Seq<Effect>,
)
    requires
        pre.switchboard.sess(from).join_state is None,
        pre.switchboard.sess(from).subscription is None,
        sub is Some && sub->0.data,
        pre.switchboard.occupant_count(room@) >= pre.config.max_room_size,
        join_post(pre, post, from, room, user, sub, out, ef),
    ensures
        out == Result::<(Json, Option<Json>), SfuError>::Err(SfuError::RoomFull),
        ef.len() == 0,
        post == pre,
        post.switchboard.occupant_count(room@) == pre.switchboard.occupant_count(room@),
{
    assert(pre.join_error(from, room@, sub) == Option::Some(SfuError::RoomFull));
}

/// Room capacity is invariant: in a server where no room exceeds the
/// configured size, a join leaves it so — the one operation that adds
/// an occupant admits a master only below the cap, and touches no
/// other room.
pub proof fn lemma_capacity_invariant(
    pre: Server,
    post: Server,
    from: SessionId,
    room_id: RoomId,
    user_id: UserId,
    subscribe: Option<Subscription>,
    out: Result<(Json, Option<Json>), SfuError>,
    ef: Seq<Effect>,
)
    requires
        forall|r: Seq<char>| #[trigger]
            pre.switchboard.occupant_count(r) <= pre.config.max_room_size,
        join_post(pre, post, from, room_id, user_id, subscribe, out, ef),
        post.config == pre.config,
    ensures
        forall|r: Seq<char>| #[trigger]
            post.switchboard.occupant_count(r) <= post.config.max_room_size,
{
    match pre.join_error(from, room_id@, subscribe) {
        Option::Some(_) => {
            assert(post == pre);
            assert(forall|r: Seq<char>| #[trigger] post.switchboard.occupant_count(r)
                <= post.config.max_room_size);
        },
        Option::None => {
            if subscribe is Some && subscribe->0.data {
                assert(pre.switchboard.occupant_count(room_id@) < pre.config.max_room_size);
                assert forall|r: Seq<char>| #[trigger] post.switchboard.occupant_count(r)
                    <= post.config.max_room_size by {
                    if r != room_id@ {
                        assert(post.switchboard.occupant_count(r)
                            == pre.switchboard.occupant_count(r));
                    } else {
                        assert(post.switchboard.occupant_count(r)
                            == pre.switchboard.occupant_count(r) + 1);
                    }
                }
            } else {
                assert(post.switchboard.occupants == pre.switchboard.occupants);
                assert forall|r: Seq<char>| #[trigger] post.switchboard.occupant_count(r)
                    <= post.config.max_room_size by {
                    assert(post.switchboard.occupant_count(r) == pre.switchboard.occupant_count(
                        r,
                    ));
                }
            }
        },
    }
}

/// Blocks cut both ways on every path: while user `a` blocks user
/// `b`, no packet travels between a session of `a` and a session of
/// `b` — not forwarded media or data, and not a synthesized keyframe
/// request either way.
pub proof fn lemma_block_symmetry(
    sb: Switchboard,
    a: Seq<char>,
    b: Seq<char>,
    s: SessionId,
    t: SessionId,
)
    requires
        sb.blocked(a, b),
        sb.sess(s).join_state is Some,
        user_of(sb.sess(s)) == a,
        sb.sess(t).join_state is Some,
        user_of(sb.sess(t)) == b,
    ensures
        !sb.media_recipient(s, t),
        !sb.media_recipient(t, s),
        !sb.data_recipient(s, t),
        !sb.data_recipient(t, s),
        !sb.media_sender(s, t),
        !sb.media_sender(t, s),
{
    assert(sb.mutually_blocked(a, t));
    assert(sb.mutually_blocked(b, s));
}

/// A publisher's offer is stable for its subscribers: a renegotiated
/// offer reaches every session already subscribed before the cached
/// offer is replaced, and the cache is set afterwards.
pub proof fn lemma_offer_stability(
    pre: Server,
    post: Server,
    from: SessionId,
    n: Negotiated,
    out: Result<Json, SfuError>,
    ef: Seq<Effect>,
)
    requires
        offer_post(pre, post, from, Option::Some(n), out, ef),
    ensures
        post.switchboard.sess(from).subscriber_offer == Option::Some(n.subscriber_offer_sdp),
        forall|t: SessionId| #[trigger]
            pre.switchboard.edge(from, t) ==> exists|k: int|
                0 <= k < ef.len() && #[trigger] ef[k] is PushEvent && ef[k]->PushEvent_to == t,
{
}

/// While a user keeps another live session, destroying one of their
/// sessions stays silent: no leave event is emitted.
pub proof fn lemma_leave_suppressed_while_connected(
    pre: Server,
    post: Server,
    s: SessionId,
    t: SessionId,
    ef: Seq<Effect>,
)
    requires
        destroy_post(pre, post, s, ef),
        pre.switchboard.sess(s).join_state is Some,
        t != s,
        pre.switchboard.valid_id(t),
        pre.switchboard.live(t),
        pre.switchboard.sess(t).join_state is Some,
        user_of(pre.switchboard.sess(t)) == user_of(pre.switchboard.sess(s)),
    ensures
        ef.len() == 0,
{
    let u = user_of(pre.switchboard.sess(s));
    assert(post.switchboard.sess(t) == pre.switchboard.sess(t));
    assert(post.switchboard.live(t) && post.switchboard.sess(t).join_state is Some && user_of(
        post.switchboard.sess(t),
    ) == u);
    assert(post.switchboard.user_connected(u));
}

/// Destroying a user's last live session emits the leave broadcast:
/// across the destruction of all of a user's sessions, the one
/// destroy that empties the user is the one that speaks, so the room
/// hears exactly one leave.
pub proof fn lemma_leave_on_last(
    pre: Server,
    post: Server,
    s: SessionId,
    ef: Seq<Effect>,
)
    requires
        destroy_post(pre, post, s, ef),
        pre.switchboard.sess(s).join_state is Some,
        forall|t: SessionId|
            t != s ==> !(pre.switchboard.live(t) && #[trigger] pre.switchboard.sess(
                t,
            ).join_state is Some && user_of(pre.switchboard.sess(t)) == user_of(
                pre.switchboard.sess(s),
            )),
        pre.switchboard.sessions@.len() == post.switchboard.sessions@.len(),
    ensures
        room_broadcast_ok(
            post.switchboard,
            "leave"@,
            user_of(pre.switchboard.sess(s)),
            room_of(pre.switchboard.sess(s)),
            ef,
        ),
{
    let u = user_of(pre.switchboard.sess(s));
    assert(!post.switchboard.user_connected(u)) by {
        if post.switchboard.user_connected(u) {
            let t = choose|t: SessionId|
                post.switchboard.live(t) && #[trigger] post.switchboard.sess(
                    t,
                ).join_state is Some && user_of(post.switchboard.sess(t)) == u;
            if t == s {
                assert(post.switchboard.sess(s).destroyed);
            } else {
                assert(post.switchboard.sess(t) == pre.switchboard.sess(t));
            }
        }
    }
}

/// The keyframe request counter strictly increases with each request
/// until it reaches its cap.
pub proof fn lemma_fir_seq_strictly_increases(f: u64)
    requires
        f < u64::MAX,
    ensures
        next_fir(f) > f,
{
}

} // verus!
