//! The signalling message schema.
//!
//! Clients speak JSON. Two tagged unions are accepted: [`MessageKind`],
//! discriminated by a lowercase `kind` field, and [`JsepKind`],
//! discriminated by a lowercase `type` field. An empty object, or an
//! object without the discriminator, stands for "no message"; an unknown
//! discriminator is an error. Decoding works on the [`Json`] tree and is
//! verified against the spec functions below; encoding is verified to
//! round-trip through decoding.

use vstd::prelude::*;

use crate::errors::SfuError;
use crate::json::{Json, spec_obj_get, obj_get, parse_json_text, json_of_text, lemma_obj_get_found};

verus! {

broadcast use vstd::string::group_string_axioms;

/// A room identity: an opaque byte string chosen by the client.
pub type RoomId = String;

/// A user identity: an opaque byte string chosen by the client. Several
/// connections may claim the same user.
pub type UserId = String;

/// A JSON message field which may or may not be present.
#[derive(Debug, PartialEq, Eq)]
pub enum OptionalField<T> {
    Present(T),
    Absent,
}

impl<T> OptionalField<T> {
    /// The present value, if any.
    pub fn into_option(self) -> (r: Option<T>)
        ensures
            match self {
                OptionalField::Present(x) => r == Option::Some(x),
                OptionalField::Absent => r is None,
            },
    {
        match self {
            OptionalField::Present(x) => Some(x),
            OptionalField::Absent => None,
        }
    }
}

/// Which traffic a client wants pushed to it.
#[derive(Debug, PartialEq, Eq)]
pub struct Subscription {
    /// Whether to receive room-wide join/leave/block events.
    pub notifications: bool,
    /// Whether to take part in the room's data-channel mesh. The one
    /// connection per user with `data` set is that user's master handle.
    pub data: bool,
    /// The user whose audio and video this connection subscribes to.
    pub media: Option<UserId>,
}

impl Subscription {
    /// An equal copy.
    pub fn duplicate(&self) -> (r: Self)
        ensures
            r == *self,
    {
        Subscription {
            notifications: self.notifications,
            data: self.data,
            media: match &self.media {
                Some(u) => Some(u.clone()),
                None => None,
            },
        }
    }
}

/// A signalling message carrying a JSEP SDP offer or answer.
#[derive(Debug, PartialEq, Eq)]
pub enum JsepKind {
    /// An offer to establish a connection.
    Offer { sdp: String },
    /// An answer responding to an offer.
    Answer { sdp: String },
}

/// The non-JSEP signalling messages a client can send.
#[derive(Debug, PartialEq, Eq)]
pub enum MessageKind {
    /// Claim a user identity in a room, optionally subscribing up front.
    Join { room_id: RoomId, user_id: UserId, subscribe: Option<Subscription> },
    /// Set subscription preferences after a join.
    Subscribe { what: Subscription },
    /// Stop all traffic to and from another user.
    Block { whom: UserId },
    /// Undo a block targeting another user.
    Unblock { whom: UserId },
}

// ---------------------------------------------------------------------
// Field extraction
// ---------------------------------------------------------------------

/// A boolean field: absent means `false`; anything but a boolean is an error.
pub open spec fn spec_bool_field(fields: Seq<(String, Json)>, name: Seq<char>) -> Result<
    bool,
    SfuError,
> {
    match spec_obj_get(fields, name) {
        Option::None => Result::Ok(false),
        Option::Some(Json::Bool(b)) => Result::Ok(b),
        Option::Some(_) => Result::Err(SfuError::MalformedMessage),
    }
}

/// A string field that may be left out: absent or `null` means none.
pub open spec fn spec_opt_string_field(fields: Seq<(String, Json)>, name: Seq<char>) -> Result<
    Option<String>,
    SfuError,
> {
    match spec_obj_get(fields, name) {
        Option::None => Result::Ok(Option::None),
        Option::Some(Json::Null) => Result::Ok(Option::None),
        Option::Some(Json::Str(s)) => Result::Ok(Option::Some(s)),
        Option::Some(_) => Result::Err(SfuError::MalformedMessage),
    }
}

/// A string field that must be there.
pub open spec fn spec_string_field(fields: Seq<(String, Json)>, name: Seq<char>) -> Result<
    String,
    SfuError,
> {
    match spec_obj_get(fields, name) {
        Option::Some(Json::Str(s)) => Result::Ok(s),
        _ => Result::Err(SfuError::MalformedMessage),
    }
}

fn bool_field(fields: &Vec<(String, Json)>, name: &String) -> (r: Result<bool, SfuError>)
    ensures
        r == spec_bool_field(fields@, name@),
{
    match obj_get(fields, name) {
        None => Ok(false),
        Some(Json::Bool(b)) => Ok(*b),
        Some(_) => Err(SfuError::MalformedMessage),
    }
}

fn opt_string_field(fields: &Vec<(String, Json)>, name: &String) -> (r: Result<
    Option<String>,
    SfuError,
>)
    ensures
        r == spec_opt_string_field(fields@, name@),
{
    match obj_get(fields, name) {
        None => Ok(None),
        Some(Json::Null) => Ok(None),
        Some(Json::Str(s)) => Ok(Some(s.clone())),
        Some(_) => Err(SfuError::MalformedMessage),
    }
}

fn string_field(fields: &Vec<(String, Json)>, name: &String) -> (r: Result<String, SfuError>)
    ensures
        r == spec_string_field(fields@, name@),
{
    match obj_get(fields, name) {
        Some(Json::Str(s)) => Ok(s.clone()),
        _ => Err(SfuError::MalformedMessage),
    }
}

// ---------------------------------------------------------------------
// Subscription records
// ---------------------------------------------------------------------

/// The field names a subscription record may carry; any other field in a
/// nested subscription record is rejected.
pub open spec fn spec_sub_field_ok(name: Seq<char>) -> bool {
    ||| name == "notifications"@
    ||| name == "data"@
    ||| name == "media"@
}

/// How a subscription record decodes: all three fields are optional,
/// defaulting to off, and no other field may appear.
pub open spec fn spec_decode_subscription(j: Json) -> Result<Subscription, SfuError> {
    match j {
        Json::Obj(fields) => {
            if !(forall|i: int| 0 <= i < fields@.len() ==> spec_sub_field_ok(fields@[i].0@)) {
                Result::Err(SfuError::MalformedMessage)
            } else {
                match (
                    spec_bool_field(fields@, "notifications"@),
                    spec_bool_field(fields@, "data"@),
                    spec_opt_string_field(fields@, "media"@),
                ) {
                    (Result::Ok(notifications), Result::Ok(data), Result::Ok(media)) => Result::Ok(
                        Subscription { notifications, data, media },
                    ),
                    _ => Result::Err(SfuError::MalformedMessage),
                }
            }
        },
        _ => Result::Err(SfuError::MalformedMessage),
    }
}

/// Decode a nested subscription record.
pub fn decode_subscription(j: &Json) -> (r: Result<Subscription, SfuError>)
    ensures
        r == spec_decode_subscription(*j),
{
    let fields = match j {
        Json::Obj(fields) => fields,
        _ => {
            return Err(SfuError::MalformedMessage);
        },
    };
    proof {
        assert(*j is Obj);
        assert(*fields == j->Obj_0);
    }
    let n: usize = fields.len();
    let mut i: usize = 0;
    while i < n
        invariant
            *j == Json::Obj(*fields),
            n == fields@.len(),
            0 <= i <= n,
            forall|k: int| 0 <= k < i ==> spec_sub_field_ok(fields@[k].0@),
        decreases n - i,
    {
        let name = &fields[i].0;
        let ok = *name == "notifications".to_owned() || *name == "data".to_owned() || *name
            == "media".to_owned();
        if !ok {
            proof {
                assert(!(forall|k: int|
                    0 <= k < fields@.len() ==> spec_sub_field_ok(fields@[k].0@))) by {
                    assert(!spec_sub_field_ok(fields@[i as int].0@));
                }
            }
            return Err(SfuError::MalformedMessage);
        }
        i += 1;
    }
    let notifications = match bool_field(fields, &"notifications".to_owned()) {
        Ok(b) => b,
        Err(e) => {
            return Err(e);
        },
    };
    let data = match bool_field(fields, &"data".to_owned()) {
        Ok(b) => b,
        Err(e) => {
            return Err(e);
        },
    };
    let media = match opt_string_field(fields, &"media".to_owned()) {
        Ok(m) => m,
        Err(e) => {
            return Err(e);
        },
    };
    Ok(Subscription { notifications, data, media })
}

// ---------------------------------------------------------------------
// Messages
// ---------------------------------------------------------------------

/// How a `join` body decodes once the discriminator is known.
pub open spec fn spec_decode_join(fields: Seq<(String, Json)>) -> Result<MessageKind, SfuError> {
    match (spec_string_field(fields, "room_id"@), spec_string_field(fields, "user_id"@)) {
        (Result::Ok(room_id), Result::Ok(user_id)) => match spec_obj_get(fields, "subscribe"@) {
            Option::None => Result::Ok(
                MessageKind::Join { room_id, user_id, subscribe: Option::None },
            ),
            Option::Some(Json::Null) => Result::Ok(
                MessageKind::Join { room_id, user_id, subscribe: Option::None },
            ),
            Option::Some(sub) => match spec_decode_subscription(sub) {
                Result::Ok(s) => Result::Ok(
                    MessageKind::Join { room_id, user_id, subscribe: Option::Some(s) },
                ),
                Result::Err(e) => Result::Err(e),
            },
        },
        _ => Result::Err(SfuError::MalformedMessage),
    }
}

/// How a whole message decodes: an object without a `kind` field is no
/// message at all; a known `kind` selects the variant; an unknown or
/// ill-typed `kind` is rejected.
pub open spec fn spec_decode_message(j: Json) -> Result<OptionalField<MessageKind>, SfuError> {
    match j {
        Json::Obj(fields) => match spec_obj_get(fields@, "kind"@) {
            Option::None => Result::Ok(OptionalField::Absent),
            Option::Some(Json::Str(k)) => {
                if k@ == "join"@ {
                    match spec_decode_join(fields@) {
                        Result::Ok(m) => Result::Ok(OptionalField::Present(m)),
                        Result::Err(e) => Result::Err(e),
                    }
                } else if k@ == "subscribe"@ {
                    match spec_obj_get(fields@, "what"@) {
                        Option::Some(w) => match spec_decode_subscription(w) {
                            Result::Ok(s) => Result::Ok(
                                OptionalField::Present(MessageKind::Subscribe { what: s }),
                            ),
                            Result::Err(e) => Result::Err(e),
                        },
                        Option::None => Result::Err(SfuError::MalformedMessage),
                    }
                } else if k@ == "block"@ {
                    match spec_string_field(fields@, "whom"@) {
                        Result::Ok(whom) => Result::Ok(
                            OptionalField::Present(MessageKind::Block { whom }),
                        ),
                        Result::Err(e) => Result::Err(e),
                    }
                } else if k@ == "unblock"@ {
                    match spec_string_field(fields@, "whom"@) {
                        Result::Ok(whom) => Result::Ok(
                            OptionalField::Present(MessageKind::Unblock { whom }),
                        ),
                        Result::Err(e) => Result::Err(e),
                    }
                } else {
                    Result::Err(SfuError::UnknownMessageKind)
                }
            },
            Option::Some(_) => Result::Err(SfuError::UnknownMessageKind),
        },
        _ => Result::Err(SfuError::MalformedMessage),
    }
}

/// Decode a message tree.
pub fn decode_message(j: &Json) -> (r: Result<OptionalField<MessageKind>, SfuError>)
    ensures
        r == spec_decode_message(*j),
{
    let fields = match j {
        Json::Obj(fields) => fields,
        _ => {
            return Err(SfuError::MalformedMessage);
        },
    };
    let kind = match obj_get(fields, &"kind".to_owned()) {
        None => {
            return Ok(OptionalField::Absent);
        },
        Some(Json::Str(k)) => k,
        Some(_) => {
            return Err(SfuError::UnknownMessageKind);
        },
    };
    if *kind == "join".to_owned() {
        let room_id = match string_field(fields, &"room_id".to_owned()) {
            Ok(s) => s,
            Err(e) => {
                return Err(e);
            },
        };
        let user_id = match string_field(fields, &"user_id".to_owned()) {
            Ok(s) => s,
            Err(e) => {
                return Err(e);
            },
        };
        let subscribe = match obj_get(fields, &"subscribe".to_owned()) {
            None => None,
            Some(Json::Null) => None,
            Some(sub) => match decode_subscription(sub) {
                Ok(s) => Some(s),
                Err(e) => {
                    return Err(e);
                },
            },
        };
        Ok(OptionalField::Present(MessageKind::Join { room_id, user_id, subscribe }))
    } else if *kind == "subscribe".to_owned() {
        match obj_get(fields, &"what".to_owned()) {
            Some(w) => match decode_subscription(w) {
                Ok(s) => Ok(OptionalField::Present(MessageKind::Subscribe { what: s })),
                Err(e) => Err(e),
            },
            None => Err(SfuError::MalformedMessage),
        }
    } else if *kind == "block".to_owned() {
        match string_field(fields, &"whom".to_owned()) {
            Ok(whom) => Ok(OptionalField::Present(MessageKind::Block { whom })),
            Err(e) => Err(e),
        }
    } else if *kind == "unblock".to_owned() {
        match string_field(fields, &"whom".to_owned()) {
            Ok(whom) => Ok(OptionalField::Present(MessageKind::Unblock { whom })),
            Err(e) => Err(e),
        }
    } else {
        Err(SfuError::UnknownMessageKind)
    }
}

// ---------------------------------------------------------------------
// JSEP envelopes
// ---------------------------------------------------------------------

/// How a JSEP envelope decodes: an object without a `type` field is no
/// JSEP at all; `offer` and `answer` carry a required `sdp` string.
pub open spec fn spec_decode_jsep(j: Json) -> Result<OptionalField<JsepKind>, SfuError> {
    match j {
        Json::Obj(fields) => match spec_obj_get(fields@, "type"@) {
            Option::None => Result::Ok(OptionalField::Absent),
            Option::Some(Json::Str(t)) => {
                if t@ == "offer"@ {
                    match spec_obj_get(fields@, "sdp"@) {
                        Option::Some(Json::Str(sdp)) => Result::Ok(
                            OptionalField::Present(JsepKind::Offer { sdp }),
                        ),
                        _ => Result::Err(SfuError::MalformedJsep),
                    }
                } else if t@ == "answer"@ {
                    match spec_obj_get(fields@, "sdp"@) {
                        Option::Some(Json::Str(sdp)) => Result::Ok(
                            OptionalField::Present(JsepKind::Answer { sdp }),
                        ),
                        _ => Result::Err(SfuError::MalformedJsep),
                    }
                } else {
                    Result::Err(SfuError::UnknownJsepKind)
                }
            },
            Option::Some(_) => Result::Err(SfuError::UnknownJsepKind),
        },
        _ => Result::Err(SfuError::MalformedJsep),
    }
}

/// Decode a JSEP tree.
pub fn decode_jsep(j: &Json) -> (r: Result<OptionalField<JsepKind>, SfuError>)
    ensures
        r == spec_decode_jsep(*j),
{
    let fields = match j {
        Json::Obj(fields) => fields,
        _ => {
            return Err(SfuError::MalformedJsep);
        },
    };
    let t = match obj_get(fields, &"type".to_owned()) {
        None => {
            return Ok(OptionalField::Absent);
        },
        Some(Json::Str(t)) => t,
        Some(_) => {
            return Err(SfuError::UnknownJsepKind);
        },
    };
    if *t == "offer".to_owned() {
        match obj_get(fields, &"sdp".to_owned()) {
            Some(Json::Str(sdp)) => Ok(OptionalField::Present(JsepKind::Offer { sdp: sdp.clone() })),
            _ => Err(SfuError::MalformedJsep),
        }
    } else if *t == "answer".to_owned() {
        match obj_get(fields, &"sdp".to_owned()) {
            Some(Json::Str(sdp)) => Ok(
                OptionalField::Present(JsepKind::Answer { sdp: sdp.clone() }),
            ),
            _ => Err(SfuError::MalformedJsep),
        }
    } else {
        Err(SfuError::UnknownJsepKind)
    }
}

// ---------------------------------------------------------------------
// Parsing from text
// ---------------------------------------------------------------------

/// How message text parses: malformed JSON is an error; otherwise the
/// tree decodes as [`spec_decode_message`].
pub open spec fn spec_parse_message(text: Seq<char>) -> Result<
    OptionalField<MessageKind>,
    SfuError,
> {
    match json_of_text(text) {
        Option::Some(j) => spec_decode_message(j),
        Option::None => Result::Err(SfuError::MalformedJson),
    }
}

/// How JSEP text parses.
pub open spec fn spec_parse_jsep(text: Seq<char>) -> Result<OptionalField<JsepKind>, SfuError> {
    match json_of_text(text) {
        Option::Some(j) => spec_decode_jsep(j),
        Option::None => Result::Err(SfuError::MalformedJson),
    }
}

/// Parse one signalling message from its wire text.
pub fn parse_message(text: &str) -> (r: Result<OptionalField<MessageKind>, SfuError>)
    ensures
        r == spec_parse_message(text@),
{
    match parse_json_text(text) {
        Some(j) => decode_message(&j),
        None => Err(SfuError::MalformedJson),
    }
}

/// Parse one JSEP envelope from its wire text.
pub fn parse_jsep(text: &str) -> (r: Result<OptionalField<JsepKind>, SfuError>)
    ensures
        r == spec_parse_jsep(text@),
{
    match parse_json_text(text) {
        Some(j) => decode_jsep(&j),
        None => Err(SfuError::MalformedJson),
    }
}

// ---------------------------------------------------------------------
// Encoding
// ---------------------------------------------------------------------

/// Encode a subscription record as a tree that decodes back to it.
pub fn encode_subscription(s: &Subscription) -> (j: Json)
    ensures
        spec_decode_subscription(j) == Result::<Subscription, SfuError>::Ok(*s),
{
    let media = match &s.media {
        Some(u) => Json::Str(u.clone()),
        None => Json::Null,
    };
    proof {
        assert(s.media is Some ==> media == Json::Str(s.media->0));
        assert(s.media is Some ==> s.media == Option::Some(s.media->0));
        assert(s.media is None ==> media == Json::Null);
    }
    let mut fields: Vec<(String, Json)> = Vec::new();
    fields.push(("notifications".to_owned(), Json::Bool(s.notifications)));
    fields.push(("data".to_owned(), Json::Bool(s.data)));
    fields.push(("media".to_owned(), media));
    proof {
        reveal_strlit("notifications");
        reveal_strlit("data");
        reveal_strlit("media");
        assert("notifications"@.len() == 13 && "data"@.len() == 4 && "media"@.len() == 5);
        assert("notifications"@ != "data"@ && "notifications"@ != "media"@ && "data"@
            != "media"@);
        lemma_obj_get_found(fields@, 0, "notifications"@);
        lemma_obj_get_found(fields@, 1, "data"@);
        lemma_obj_get_found(fields@, 2, "media"@);
        assert(forall|i: int| 0 <= i < fields@.len() ==> spec_sub_field_ok(
            #[trigger] fields@[i].0@,
        )) by {
            assert(spec_sub_field_ok(fields@[0].0@));
            assert(spec_sub_field_ok(fields@[1].0@));
            assert(spec_sub_field_ok(fields@[2].0@));
        }
        assert(*s == (Subscription { notifications: s.notifications, data: s.data, media: s.media }));
    }
    Json::Obj(fields)
}

/// Encode a message as a tree that decodes back to it: every message
/// survives the encode/decode round trip.
pub fn encode_message(m: &MessageKind) -> (j: Json)
    ensures
        spec_decode_message(j) == Result::<OptionalField<MessageKind>, SfuError>::Ok(
            OptionalField::Present(*m),
        ),
{
    match m {
        MessageKind::Join { room_id, user_id, subscribe } => {
            let sub = match subscribe {
                Some(s) => encode_subscription(s),
                None => Json::Null,
            };
            proof {
                assert(*subscribe is Some ==> spec_decode_subscription(sub) == Result::<
                    Subscription,
                    SfuError,
                >::Ok(subscribe->0));
                assert(*subscribe is Some ==> *subscribe == Option::Some(subscribe->0));
                assert(*subscribe is None ==> sub == Json::Null);
            }
            let mut fields: Vec<(String, Json)> = Vec::new();
            fields.push(("kind".to_owned(), Json::Str("join".to_owned())));
            fields.push(("room_id".to_owned(), Json::Str(room_id.clone())));
            fields.push(("user_id".to_owned(), Json::Str(user_id.clone())));
            fields.push(("subscribe".to_owned(), sub));
            proof {
                reveal_strlit("kind");
                reveal_strlit("join");
                reveal_strlit("room_id");
                reveal_strlit("user_id");
                reveal_strlit("subscribe");
                assert("kind"@.len() == 4 && "room_id"@.len() == 7 && "user_id"@.len() == 7
                    && "subscribe"@.len() == 9);
                assert("room_id"@[0] == 'r' && "user_id"@[0] == 'u');
                assert("kind"@ != "room_id"@ && "kind"@ != "user_id"@ && "kind"@
                    != "subscribe"@);
                assert("room_id"@ != "user_id"@ && "room_id"@ != "subscribe"@ && "user_id"@
                    != "subscribe"@);
                lemma_obj_get_found(fields@, 0, "kind"@);
                lemma_obj_get_found(fields@, 1, "room_id"@);
                lemma_obj_get_found(fields@, 2, "user_id"@);
                lemma_obj_get_found(fields@, 3, "subscribe"@);
                assert(*m is Join);
                assert(*m == (MessageKind::Join {
                    room_id: *room_id,
                    user_id: *user_id,
                    subscribe: *subscribe,
                }));
                assert(spec_decode_message(Json::Obj(fields)) == Result::<
                    OptionalField<MessageKind>,
                    SfuError,
                >::Ok(OptionalField::Present(*m)));
            }
            Json::Obj(fields)
        },
        MessageKind::Subscribe { what } => {
            let sub = encode_subscription(what);
            let mut fields: Vec<(String, Json)> = Vec::new();
            fields.push(("kind".to_owned(), Json::Str("subscribe".to_owned())));
            fields.push(("what".to_owned(), sub));
            proof {
                reveal_strlit("kind");
                reveal_strlit("join");
                reveal_strlit("subscribe");
                reveal_strlit("what");
                assert("kind"@.len() == 4 && "what"@.len() == 4 && "join"@.len() == 4
                    && "subscribe"@.len() == 9);
                assert("kind"@[0] == 'k' && "what"@[0] == 'w');
                assert("kind"@ != "what"@);
                assert("subscribe"@ != "join"@);
                lemma_obj_get_found(fields@, 0, "kind"@);
                lemma_obj_get_found(fields@, 1, "what"@);
                assert(*m is Subscribe);
                assert(*m == (MessageKind::Subscribe { what: *what }));
                assert(spec_decode_message(Json::Obj(fields)) == Result::<
                    OptionalField<MessageKind>,
                    SfuError,
                >::Ok(OptionalField::Present(*m)));
            }
            Json::Obj(fields)
        },
        MessageKind::Block { whom } => {
            let mut fields: Vec<(String, Json)> = Vec::new();
            fields.push(("kind".to_owned(), Json::Str("block".to_owned())));
            fields.push(("whom".to_owned(), Json::Str(whom.clone())));
            proof {
                reveal_strlit("kind");
                reveal_strlit("join");
                reveal_strlit("subscribe");
                reveal_strlit("block");
                reveal_strlit("whom");
                assert("kind"@.len() == 4 && "whom"@.len() == 4 && "join"@.len() == 4
                    && "subscribe"@.len() == 9 && "block"@.len() == 5);
                assert("kind"@[0] == 'k' && "whom"@[0] == 'w' && "block"@[0] == 'b'
                    && "join"@[0] == 'j');
                assert("kind"@ != "whom"@);
                assert("block"@ != "join"@ && "block"@ != "subscribe"@);
                lemma_obj_get_found(fields@, 0, "kind"@);
                lemma_obj_get_found(fields@, 1, "whom"@);
                assert(*m is Block);
                assert(*m == (MessageKind::Block { whom: *whom }));
                assert(spec_decode_message(Json::Obj(fields)) == Result::<
                    OptionalField<MessageKind>,
                    SfuError,
                >::Ok(OptionalField::Present(*m)));
            }
            Json::Obj(fields)
        },
        MessageKind::Unblock { whom } => {
            let mut fields: Vec<(String, Json)> = Vec::new();
            fields.push(("kind".to_owned(), Json::Str("unblock".to_owned())));
            fields.push(("whom".to_owned(), Json::Str(whom.clone())));
            proof {
                reveal_strlit("kind");
                reveal_strlit("join");
                reveal_strlit("subscribe");
                reveal_strlit("block");
                reveal_strlit("unblock");
                reveal_strlit("whom");
                assert("kind"@.len() == 4 && "whom"@.len() == 4 && "join"@.len() == 4
                    && "subscribe"@.len() == 9 && "block"@.len() == 5 && "unblock"@.len() == 7);
                assert("kind"@[0] == 'k' && "whom"@[0] == 'w' && "unblock"@[0] == 'u'
                    && "join"@[0] == 'j');
                assert("kind"@ != "whom"@);
                assert("unblock"@ != "join"@ && "unblock"@ != "subscribe"@ && "unblock"@
                    != "block"@);
                lemma_obj_get_found(fields@, 0, "kind"@);
                lemma_obj_get_found(fields@, 1, "whom"@);
                assert(*m is Unblock);
                assert(*m == (MessageKind::Unblock { whom: *whom }));
                assert(spec_decode_message(Json::Obj(fields)) == Result::<
                    OptionalField<MessageKind>,
                    SfuError,
                >::Ok(OptionalField::Present(*m)));
            }
            Json::Obj(fields)
        },
    }
}

/// Encode a JSEP envelope as a tree that decodes back to it.
pub fn encode_jsep(k: &JsepKind) -> (j: Json)
    ensures
        spec_decode_jsep(j) == Result::<OptionalField<JsepKind>, SfuError>::Ok(
            OptionalField::Present(*k),
        ),
{
    match k {
        JsepKind::Offer { sdp } => {
            let mut fields: Vec<(String, Json)> = Vec::new();
            fields.push(("type".to_owned(), Json::Str("offer".to_owned())));
            fields.push(("sdp".to_owned(), Json::Str(sdp.clone())));
            proof {
                reveal_strlit("type");
                reveal_strlit("offer");
                reveal_strlit("sdp");
                assert("type"@.len() == 4 && "sdp"@.len() == 3);
                assert("type"@ != "sdp"@);
                lemma_obj_get_found(fields@, 0, "type"@);
                lemma_obj_get_found(fields@, 1, "sdp"@);
                assert(*k is Offer);
                assert(*k == (JsepKind::Offer { sdp: *sdp }));
                assert(spec_decode_jsep(Json::Obj(fields)) == Result::<
                    OptionalField<JsepKind>,
                    SfuError,
                >::Ok(OptionalField::Present(*k)));
            }
            Json::Obj(fields)
        },
        JsepKind::Answer { sdp } => {
            let mut fields: Vec<(String, Json)> = Vec::new();
            fields.push(("type".to_owned(), Json::Str("answer".to_owned())));
            fields.push(("sdp".to_owned(), Json::Str(sdp.clone())));
            proof {
                reveal_strlit("type");
                reveal_strlit("offer");
                reveal_strlit("answer");
                reveal_strlit("sdp");
                assert("type"@.len() == 4 && "sdp"@.len() == 3 && "offer"@.len() == 5
                    && "answer"@.len() == 6);
                assert("type"@ != "sdp"@ && "answer"@ != "offer"@);
                lemma_obj_get_found(fields@, 0, "type"@);
                lemma_obj_get_found(fields@, 1, "sdp"@);
                assert(*k is Answer);
                assert(*k == (JsepKind::Answer { sdp: *sdp }));
                assert(spec_decode_jsep(Json::Obj(fields)) == Result::<
                    OptionalField<JsepKind>,
                    SfuError,
                >::Ok(OptionalField::Present(*k)));
            }
            Json::Obj(fields)
        },
    }
}

// ---------------------------------------------------------------------
// Decoding laws
// ---------------------------------------------------------------------

/// An object without the `kind` discriminator is no message at all,
/// whatever other fields it carries; in particular the empty object is
/// no message.
pub proof fn lemma_no_discriminator_is_no_message(v: Vec<(String, Json)>)
    requires
        spec_obj_get(v@, "kind"@) is None,
    ensures
        spec_decode_message(Json::Obj(v)) == Result::<OptionalField<MessageKind>, SfuError>::Ok(
            OptionalField::<MessageKind>::Absent,
        ),
{
}

/// An unknown `kind` discriminator is rejected.
pub proof fn lemma_unknown_discriminator_rejected(v: Vec<(String, Json)>, k: String)
    requires
        spec_obj_get(v@, "kind"@) == Option::Some(Json::Str(k)),
        k@ != "join"@,
        k@ != "subscribe"@,
        k@ != "block"@,
        k@ != "unblock"@,
    ensures
        spec_decode_message(Json::Obj(v)) == Result::<OptionalField<MessageKind>, SfuError>::Err(
            SfuError::UnknownMessageKind,
        ),
{
}

// ---------------------------------------------------------------------
// try_parse
// ---------------------------------------------------------------------

/// A message union that can be read out of a JSON tree, wrapped so that
/// a tree without the discriminator counts as "no message".
pub trait JsonMessage: Sized {
    /// How a tree decodes into this union.
    spec fn spec_decode_opt(j: Json) -> Result<OptionalField<Self>, SfuError>;

    /// Decode a tree.
    fn decode_opt(j: &Json) -> (r: Result<OptionalField<Self>, SfuError>)
        ensures
            r == Self::spec_decode_opt(*j),
    ;
}

impl JsonMessage for MessageKind {
    open spec fn spec_decode_opt(j: Json) -> Result<OptionalField<Self>, SfuError> {
        spec_decode_message(j)
    }

    fn decode_opt(j: &Json) -> (r: Result<OptionalField<Self>, SfuError>) {
        decode_message(j)
    }
}

impl JsonMessage for JsepKind {
    open spec fn spec_decode_opt(j: Json) -> Result<OptionalField<Self>, SfuError> {
        spec_decode_jsep(j)
    }

    fn decode_opt(j: &Json) -> (r: Result<OptionalField<Self>, SfuError>) {
        decode_jsep(j)
    }
}

/// What [`OptionalField::try_parse`] yields on a present text.
pub open spec fn spec_try_parse<T: JsonMessage>(text: Seq<char>) -> Option<Result<T, SfuError>> {
    match json_of_text(text) {
        Option::None => Option::Some(Result::Err(SfuError::MalformedJson)),
        Option::Some(j) => match T::spec_decode_opt(j) {
            Result::Ok(OptionalField::Absent) => Option::None,
            Result::Ok(OptionalField::Present(m)) => Option::Some(Result::Ok(m)),
            Result::Err(e) => Option::Some(Result::Err(e)),
        },
    }
}

impl<T: JsonMessage> OptionalField<T> {
    /// Parse an optional piece of message text: nothing if the text is
    /// absent or carries no discriminator, otherwise the decoded value
    /// or the error.
    pub fn try_parse(val: &Option<String>) -> (r: Option<Result<T, SfuError>>)
        ensures
            match val {
                Option::None => r is None,
                Option::Some(text) => r == spec_try_parse::<T>(text@),
            },
    {
        let text = match val {
            Some(text) => text,
            None => {
                return None;
            },
        };
        let j = match parse_json_text(text.as_str()) {
            Some(j) => j,
            None => {
                return Some(Err(SfuError::MalformedJson));
            },
        };
        match T::decode_opt(&j) {
            Ok(OptionalField::Absent) => None,
            Ok(OptionalField::Present(m)) => Some(Ok(m)),
            Err(e) => Some(Err(e)),
        }
    }
}

} // verus!
