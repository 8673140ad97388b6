//! Parsing and round-trip checks for the signalling message schema.

use sfu_core::errors::SfuError;
use sfu_core::json::{parse_json_text, Json};
use sfu_core::messages::{
    decode_jsep, decode_message, encode_jsep, encode_message, parse_jsep, parse_message,
    JsepKind, MessageKind, OptionalField, Subscription,
};

#[test]
fn parse_empty() {
    let result = parse_message("{}").unwrap();
    assert_eq!(result, OptionalField::Absent);
}

#[test]
fn parse_inner_error() {
    let json = r#"{"kind": "join"}"#;
    let result = parse_message(json);
    assert!(result.is_err());
}

#[test]
fn parse_outer_error() {
    let json = r#"{"kind": "fiddle"}"#;
    let result = parse_message(json);
    assert!(result.is_err());
}

#[test]
fn parse_join_user_id() {
    let json = r#"{"kind": "join", "user_id": "10", "room_id": "alpha"}"#;
    let result = parse_message(json).unwrap();
    assert_eq!(
        result,
        OptionalField::Present(MessageKind::Join {
            user_id: "10".into(),
            room_id: "alpha".into(),
            subscribe: None
        })
    );
}

#[test]
fn parse_join_subscriptions() {
    let json = r#"{"kind": "join", "user_id": "10", "room_id": "5", "subscribe": {"notifications": true, "data": false}}"#;
    let result = parse_message(json).unwrap();
    assert_eq!(
        result,
        OptionalField::Present(MessageKind::Join {
            user_id: "10".into(),
            room_id: "5".into(),
            subscribe: Some(Subscription {
                notifications: true,
                data: false,
                media: None
            })
        })
    );
}

#[test]
fn parse_subscribe() {
    let json = r#"{"kind": "subscribe", "what": {"notifications": false, "data": true, "media": "steve"}}"#;
    let result = parse_message(json).unwrap();
    assert_eq!(
        result,
        OptionalField::Present(MessageKind::Subscribe {
            what: Subscription {
                notifications: false,
                data: true,
                media: Some("steve".into())
            }
        })
    );
}

#[test]
fn message_round_trips() {
    let cases = vec![
        MessageKind::Join {
            room_id: "alpha".into(),
            user_id: "u1".into(),
            subscribe: Some(Subscription { notifications: true, data: true, media: Some("u2".into()) }),
        },
        MessageKind::Join { room_id: "".into(), user_id: "x".into(), subscribe: None },
        MessageKind::Subscribe {
            what: Subscription { notifications: false, data: false, media: None },
        },
        MessageKind::Block { whom: "bob".into() },
        MessageKind::Unblock { whom: "bob".into() },
    ];
    for m in cases {
        let tree = encode_message(&m);
        assert_eq!(decode_message(&tree).unwrap(), OptionalField::Present(m));
    }
}

#[test]
fn jsep_round_trips() {
    let cases = vec![
        JsepKind::Offer { sdp: "v=0 offer".into() },
        JsepKind::Answer { sdp: "v=0 answer".into() },
    ];
    for k in cases {
        let tree = encode_jsep(&k);
        assert_eq!(decode_jsep(&tree).unwrap(), OptionalField::Present(k));
    }
}

#[test]
fn unknown_nested_field_rejected() {
    let json = r#"{"kind": "join", "user_id": "10", "room_id": "r", "subscribe": {"data": true, "bogus": 1}}"#;
    assert_eq!(parse_message(json), Err(SfuError::MalformedMessage));
}

#[test]
fn object_without_discriminator_is_no_message() {
    let json = r#"{"something": "else"}"#;
    assert_eq!(parse_message(json).unwrap(), OptionalField::Absent);
}

#[test]
fn malformed_json_reported() {
    assert_eq!(parse_message("{"), Err(SfuError::MalformedJson));
    assert_eq!(parse_jsep("not json"), Err(SfuError::MalformedJson));
}

#[test]
fn unknown_kind_reported() {
    assert_eq!(
        parse_message(r#"{"kind": "dance"}"#),
        Err(SfuError::UnknownMessageKind)
    );
}

#[test]
fn jsep_parses_and_rejects() {
    assert_eq!(
        parse_jsep(r#"{"type": "offer", "sdp": "v=0"}"#).unwrap(),
        OptionalField::Present(JsepKind::Offer { sdp: "v=0".into() })
    );
    assert_eq!(parse_jsep("{}").unwrap(), OptionalField::<JsepKind>::Absent);
    assert_eq!(
        parse_jsep(r#"{"type": "question", "sdp": "v=0"}"#),
        Err(SfuError::UnknownJsepKind)
    );
    assert_eq!(
        parse_jsep(r#"{"type": "offer"}"#),
        Err(SfuError::MalformedJsep)
    );
}

#[test]
fn block_requires_whom() {
    assert_eq!(
        parse_message(r#"{"kind": "block"}"#),
        Err(SfuError::MalformedMessage)
    );
    assert_eq!(
        parse_message(r#"{"kind": "block", "whom": "u2"}"#).unwrap(),
        OptionalField::Present(MessageKind::Block { whom: "u2".into() })
    );
}

#[test]
fn try_parse_wraps_optional_text() {
    let absent: Option<Result<MessageKind, SfuError>> = OptionalField::try_parse(&None);
    assert!(absent.is_none());
    let none_msg: Option<Result<MessageKind, SfuError>> =
        OptionalField::try_parse(&Some("{}".to_string()));
    assert!(none_msg.is_none());
    let block: Option<Result<MessageKind, SfuError>> =
        OptionalField::try_parse(&Some(r#"{"kind": "block", "whom": "z"}"#.to_string()));
    assert_eq!(
        block.unwrap().unwrap(),
        MessageKind::Block { whom: "z".into() }
    );
    let bad: Option<Result<MessageKind, SfuError>> =
        OptionalField::try_parse(&Some("][".to_string()));
    assert_eq!(bad.unwrap(), Err(SfuError::MalformedJson));
}

#[test]
fn text_parsing_reads_the_text() {
    // The wrapper around the JSON parser must hand back the parsed
    // tree of the text, not anything resembling the text itself.
    let tree = parse_json_text(r#"{"a": [1, true, null, "x"]}"#).unwrap();
    match tree {
        Json::Obj(fields) => {
            assert_eq!(fields.len(), 1);
            assert_eq!(fields[0].0, "a");
            match &fields[0].1 {
                Json::Arr(items) => {
                    assert_eq!(items.len(), 4);
                    assert_eq!(items[1], Json::Bool(true));
                    assert_eq!(items[2], Json::Null);
                    assert_eq!(items[3], Json::Str("x".into()));
                }
                other => panic!("not an array: {:?}", other),
            }
        }
        other => panic!("not an object: {:?}", other),
    }
    assert!(parse_json_text("{].").is_none());
}

#[test]
fn into_option_unwraps() {
    assert_eq!(
        OptionalField::Present(MessageKind::Block { whom: "a".into() }).into_option(),
        Some(MessageKind::Block { whom: "a".into() })
    );
    assert_eq!(OptionalField::<MessageKind>::Absent.into_option(), None);
}
