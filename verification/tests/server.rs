//! End-to-end scenarios against the signalling core, with a room
//! capacity of four.

use sfu_core::config::Config;
use sfu_core::json::Json;
use sfu_core::messages::{JsepKind, MessageKind, Subscription};
use sfu_core::signalling::{Effect, Negotiated, Response, Server};

fn server() -> Server {
    Server::new(Config::new(4))
}

fn field<'a>(j: &'a Json, name: &str) -> Option<&'a Json> {
    match j {
        Json::Obj(fields) => fields.iter().find(|(k, _)| k == name).map(|(_, v)| v),
        _ => None,
    }
}

fn is_success(r: &Response) -> bool {
    field(&r.body, "success") == Some(&Json::Bool(true))
}

fn is_error(r: &Response) -> bool {
    field(&r.body, "success") == Some(&Json::Bool(false)) && field(&r.body, "error").is_some()
}

fn join_text(room: &str, user: &str, subscribe: Option<&str>) -> String {
    match subscribe {
        Some(s) => format!(
            r#"{{"kind": "join", "room_id": "{}", "user_id": "{}", "subscribe": {}}}"#,
            room, user, s
        ),
        None => format!(
            r#"{{"kind": "join", "room_id": "{}", "user_id": "{}"}}"#,
            room, user
        ),
    }
}

fn users_in_body(r: &Response, room: &str) -> Vec<String> {
    let users = field(&r.body, "response")
        .and_then(|b| field(b, "users"))
        .and_then(|u| field(u, room))
        .expect("users list");
    match users {
        Json::Arr(items) => items
            .iter()
            .map(|i| match i {
                Json::Str(s) => s.clone(),
                other => panic!("not a user string: {:?}", other),
            })
            .collect(),
        other => panic!("not a list: {:?}", other),
    }
}

fn master_join(srv: &mut Server, s: usize, room: &str, user: &str) -> (Vec<Effect>, Response) {
    let text = join_text(
        room,
        user,
        Some(r#"{"notifications": true, "data": true}"#),
    );
    let (ef, resp) = srv.handle_message(s, Some(&text), None, None);
    (ef, resp.expect("a live session answers"))
}

fn publish(srv: &mut Server, s: usize, offer: &str, answer: &str, suboffer: &str) -> (Vec<Effect>, Response) {
    let jsep = format!(r#"{{"type": "offer", "sdp": "{}"}}"#, offer);
    let negotiated = Negotiated {
        answer_sdp: answer.to_string(),
        subscriber_offer_sdp: suboffer.to_string(),
    };
    let (ef, resp) = srv.handle_message(s, None, Some(&jsep), Some(&negotiated));
    (ef, resp.expect("a live session answers"))
}

#[test]
fn join_then_publish() {
    let mut srv = server();
    let s1 = srv.create_session();
    let (ef, resp) = master_join(&mut srv, s1, "alpha", "u1");
    assert!(is_success(&resp));
    assert_eq!(users_in_body(&resp, "alpha"), vec!["u1".to_string()]);
    assert!(resp.jsep.is_none());
    assert!(ef.is_empty(), "no one else to notify");

    let (ef2, resp2) = publish(&mut srv, s1, "offer-sdp", "answer-sdp", "suboffer-sdp");
    assert!(is_success(&resp2));
    let jsep = resp2.jsep.expect("an answer rides along");
    assert_eq!(field(&jsep, "type"), Some(&Json::Str("answer".into())));
    assert_eq!(field(&jsep, "sdp"), Some(&Json::Str("answer-sdp".into())));
    assert!(ef2.is_empty(), "no subscribers yet");
}

#[test]
fn subscribe_join_receives_offer_and_media() {
    let mut srv = server();
    let s1 = srv.create_session();
    master_join(&mut srv, s1, "alpha", "u1");
    publish(&mut srv, s1, "o", "a", "cached-offer");

    let s2 = srv.create_session();
    let text = join_text(
        "alpha",
        "u2",
        Some(r#"{"notifications": true, "data": true, "media": "u1"}"#),
    );
    let (ef, resp) = srv.handle_message(s2, Some(&text), None, None);
    let resp = resp.unwrap();
    assert!(is_success(&resp));
    assert_eq!(
        users_in_body(&resp, "alpha"),
        vec!["u1".to_string(), "u2".to_string()]
    );
    let jsep = resp.jsep.expect("the cached subscriber offer");
    assert_eq!(field(&jsep, "type"), Some(&Json::Str("offer".into())));
    assert_eq!(field(&jsep, "sdp"), Some(&Json::Str("cached-offer".into())));

    // S1 is told about the join.
    assert!(ef.iter().any(|e| match e {
        Effect::PushEvent { to, body, jsep } =>
            *to == s1 && jsep.is_none()
                && field(body, "event") == Some(&Json::Str("join".into()))
                && field(body, "user_id") == Some(&Json::Str("u2".into()))
                && field(body, "room_id") == Some(&Json::Str("alpha".into())),
        _ => false,
    }));

    // Media from S1 now reaches S2.
    let relays = srv.incoming_rtp(s1);
    assert_eq!(relays, vec![Effect::RelayRtp { to: s2 }]);
}

#[test]
fn block_stops_traffic_both_ways() {
    let mut srv = server();
    let s1 = srv.create_session();
    master_join(&mut srv, s1, "alpha", "u1");
    publish(&mut srv, s1, "o", "a", "co");
    let s2 = srv.create_session();
    let text = join_text(
        "alpha",
        "u2",
        Some(r#"{"notifications": true, "data": true, "media": "u1"}"#),
    );
    srv.handle_message(s2, Some(&text), None, None);

    let block = r#"{"kind": "block", "whom": "u2"}"#.to_string();
    let (ef, resp) = srv.handle_message(s1, Some(&block), None, None);
    assert!(is_success(&resp.unwrap()));
    // S2 hears it was blocked.
    assert!(ef.iter().any(|e| match e {
        Effect::PushEvent { to, body, .. } =>
            *to == s2 && field(body, "event") == Some(&Json::Str("blocked".into()))
                && field(body, "by") == Some(&Json::Str("u1".into())),
        _ => false,
    }));

    assert!(srv.incoming_rtp(s1).is_empty(), "media from u1 stops");
    assert!(srv.incoming_rtp(s2).is_empty(), "media from u2 stops");
    assert!(srv.incoming_data(s1).is_empty(), "data from u1 stops");
    assert!(srv.incoming_data(s2).is_empty(), "data from u2 stops");
}

#[test]
fn unblock_restores_and_requests_keyframe() {
    let mut srv = server();
    let s1 = srv.create_session();
    master_join(&mut srv, s1, "alpha", "u1");
    publish(&mut srv, s1, "o", "a", "co1");
    let s2 = srv.create_session();
    let text = join_text(
        "alpha",
        "u2",
        Some(r#"{"notifications": true, "data": true, "media": "u1"}"#),
    );
    srv.handle_message(s2, Some(&text), None, None);
    // u2 publishes as well, so the unblock owes it a keyframe request.
    publish(&mut srv, s2, "o2", "a2", "co2");

    let block = r#"{"kind": "block", "whom": "u2"}"#.to_string();
    srv.handle_message(s1, Some(&block), None, None);

    let unblock = r#"{"kind": "unblock", "whom": "u2"}"#.to_string();
    let (ef, resp) = srv.handle_message(s1, Some(&unblock), None, None);
    assert!(is_success(&resp.unwrap()));
    // A full intra request goes to u2's publishing session, first.
    assert!(matches!(&ef[0], Effect::SendRtcp { to, packet } if *to == s2 && packet[1] == 206));
    // S2 hears it was unblocked.
    assert!(ef.iter().any(|e| match e {
        Effect::PushEvent { to, body, .. } =>
            *to == s2 && field(body, "event") == Some(&Json::Str("unblocked".into()))
                && field(body, "by") == Some(&Json::Str("u1".into())),
        _ => false,
    }));
    // Media forwarding resumes.
    assert_eq!(srv.incoming_rtp(s1), vec![Effect::RelayRtp { to: s2 }]);
}

#[test]
fn room_full_rejects_fifth_master() {
    let mut srv = server();
    for k in 0..4 {
        let s = srv.create_session();
        let (_, resp) = master_join(&mut srv, s, "r", &format!("u{}", k));
        assert!(is_success(&resp));
    }
    let s5 = srv.create_session();
    let (ef, resp) = master_join(&mut srv, s5, "r", "u5");
    let resp = resp;
    assert!(is_error(&resp));
    assert!(ef.is_empty());
    // The occupant count stands at four.
    let s6 = srv.create_session();
    let text = join_text("r", "watcher", None);
    let (_, resp6) = srv.handle_message(s6, Some(&text), None, None);
    assert_eq!(users_in_body(&resp6.unwrap(), "r").len(), 4);
}

#[test]
fn second_join_rejected_state_unchanged() {
    let mut srv = server();
    let s1 = srv.create_session();
    master_join(&mut srv, s1, "alpha", "u1");
    let text = join_text("beta", "u9", Some(r#"{"data": true}"#));
    let (ef, resp) = srv.handle_message(s1, Some(&text), None, None);
    assert!(is_error(&resp.unwrap()));
    assert!(ef.is_empty());
    // Still only in alpha, under the first identity.
    let s2 = srv.create_session();
    let watcher = join_text("alpha", "w", None);
    let (_, r2) = srv.handle_message(s2, Some(&watcher), None, None);
    assert_eq!(users_in_body(&r2.unwrap(), "alpha"), vec!["u1".to_string()]);
}

#[test]
fn dead_session_message_is_dropped() {
    let mut srv = server();
    let s1 = srv.create_session();
    master_join(&mut srv, s1, "alpha", "u1");
    srv.destroy_session(s1);
    let text = join_text("alpha", "u1", None);
    let (ef, resp) = srv.handle_message(s1, Some(&text), None, None);
    assert!(ef.is_empty());
    assert!(resp.is_none());
}

#[test]
fn leave_emitted_exactly_once() {
    let mut srv = server();
    let watcher = srv.create_session();
    master_join(&mut srv, watcher, "alpha", "w");
    // User u1 holds a master handle and one extra connection.
    let s1 = srv.create_session();
    master_join(&mut srv, s1, "alpha", "u1");
    let s1b = srv.create_session();
    let text = join_text("alpha", "u1", None);
    srv.handle_message(s1b, Some(&text), None, None);

    let leave_to_watcher = |ef: &Vec<Effect>| {
        ef.iter()
            .filter(|e| match e {
                Effect::PushEvent { to, body, .. } =>
                    *to == watcher
                        && field(body, "event") == Some(&Json::Str("leave".into()))
                        && field(body, "user_id") == Some(&Json::Str("u1".into())),
                _ => false,
            })
            .count()
    };

    let ef1 = srv.destroy_session(s1b);
    assert_eq!(leave_to_watcher(&ef1), 0, "u1 still has a session");
    let ef2 = srv.destroy_session(s1);
    assert_eq!(leave_to_watcher(&ef2), 1, "the last session emits one leave");
}

#[test]
fn fir_on_setup_and_sequence_increases() {
    let mut srv = server();
    let s1 = srv.create_session();
    master_join(&mut srv, s1, "alpha", "u1");
    publish(&mut srv, s1, "o", "a", "co");
    let s2 = srv.create_session();
    let text = join_text(
        "alpha",
        "u2",
        Some(r#"{"notifications": true, "data": true, "media": "u1"}"#),
    );
    srv.handle_message(s2, Some(&text), None, None);

    let ef1 = srv.setup_media(s2);
    assert_eq!(ef1.len(), 1, "exactly one request per subscribed publisher");
    let seq1 = match &ef1[0] {
        Effect::SendRtcp { to, packet } => {
            assert_eq!(*to, s1);
            packet[16]
        }
        other => panic!("not a keyframe request: {:?}", other),
    };
    let ef2 = srv.setup_media(s2);
    let seq2 = match &ef2[0] {
        Effect::SendRtcp { packet, .. } => packet[16],
        other => panic!("not a keyframe request: {:?}", other),
    };
    assert_eq!(seq1, 0);
    assert_eq!(seq2, 1);
}

#[test]
fn no_media_before_join() {
    let mut srv = server();
    let s0 = srv.create_session();
    assert!(srv.incoming_rtp(s0).is_empty());
    assert!(srv.incoming_data(s0).is_empty());
}

#[test]
fn renegotiation_pushes_offer_to_subscribers_first() {
    let mut srv = server();
    let s1 = srv.create_session();
    master_join(&mut srv, s1, "alpha", "u1");
    publish(&mut srv, s1, "o1", "a1", "co1");
    let s2 = srv.create_session();
    let text = join_text(
        "alpha",
        "u2",
        Some(r#"{"notifications": true, "data": true, "media": "u1"}"#),
    );
    srv.handle_message(s2, Some(&text), None, None);

    // A second offer from the publisher re-offers to S2.
    let (ef, resp) = publish(&mut srv, s1, "o2", "a2", "co2");
    assert!(is_success(&resp));
    assert!(ef.iter().any(|e| match e {
        Effect::PushEvent { to, jsep: Some(j), .. } =>
            *to == s2 && field(j, "type") == Some(&Json::Str("offer".into()))
                && field(j, "sdp") == Some(&Json::Str("co2".into())),
        _ => false,
    }));
}

#[test]
fn rtcp_pli_turns_around_to_publisher() {
    let mut srv = server();
    let s1 = srv.create_session();
    master_join(&mut srv, s1, "alpha", "u1");
    publish(&mut srv, s1, "o", "a", "co");
    let s2 = srv.create_session();
    let text = join_text(
        "alpha",
        "u2",
        Some(r#"{"notifications": false, "data": false, "media": "u1"}"#),
    );
    srv.handle_message(s2, Some(&text), None, None);

    let pli = sfu_core::rtcp::gen_pli();
    let ef = srv.incoming_rtcp(s2, true, &pli);
    assert_eq!(ef.len(), 1);
    assert!(matches!(&ef[0], Effect::SendRtcp { to, packet } if *to == s1 && packet[0] == 0x81));

    // A non-feedback packet from the publisher is forwarded.
    let rr: Vec<u8> = vec![0x80, 201, 0, 1, 0, 0, 0, 0];
    let ef2 = srv.incoming_rtcp(s1, true, &rr);
    assert_eq!(ef2, vec![Effect::RelayRtcp { to: s2 }]);
}

#[test]
fn subscribe_after_join_answers_cached_offer() {
    let mut srv = server();
    let s1 = srv.create_session();
    master_join(&mut srv, s1, "alpha", "u1");
    publish(&mut srv, s1, "o", "a", "cached");
    let s2 = srv.create_session();
    let join = join_text("alpha", "u2", None);
    srv.handle_message(s2, Some(&join), None, None);
    let sub = r#"{"kind": "subscribe", "what": {"media": "u1"}}"#.to_string();
    let (_, resp) = srv.handle_message(s2, Some(&sub), None, None);
    let resp = resp.unwrap();
    assert!(is_success(&resp));
    let jsep = resp.jsep.expect("the cached offer");
    assert_eq!(field(&jsep, "sdp"), Some(&Json::Str("cached".into())));

    // Subscribing a second time is refused.
    let again = r#"{"kind": "subscribe", "what": {"data": true}}"#.to_string();
    let (_, resp2) = srv.handle_message(s2, Some(&again), None, None);
    assert!(is_error(&resp2.unwrap()));
}

#[test]
fn subscribe_to_missing_publisher_rejected() {
    let mut srv = server();
    let s1 = srv.create_session();
    let text = join_text(
        "alpha",
        "u1",
        Some(r#"{"data": true, "media": "nobody"}"#),
    );
    let (_, resp) = srv.handle_message(s1, Some(&text), None, None);
    assert!(is_error(&resp.unwrap()));
    // No state was kept: the same session may still join.
    let (_, resp2) = srv.handle_message(s1, Some(&join_text("alpha", "u1", None)), None, None);
    assert!(is_success(&resp2.unwrap()));
}

#[test]
fn block_without_join_rejected() {
    let mut srv = server();
    let s1 = srv.create_session();
    let block = r#"{"kind": "block", "whom": "u2"}"#.to_string();
    let (_, resp) = srv.handle_message(s1, Some(&block), None, None);
    assert!(is_error(&resp.unwrap()));
}

#[test]
fn offer_without_negotiation_rejected() {
    let mut srv = server();
    let s1 = srv.create_session();
    let jsep = r#"{"type": "offer", "sdp": "o"}"#.to_string();
    let (_, resp) = srv.handle_message(s1, None, Some(&jsep), None);
    assert!(is_error(&resp.unwrap()));
}

#[test]
fn answer_is_noop_success() {
    let mut srv = server();
    let s1 = srv.create_session();
    let jsep = r#"{"type": "answer", "sdp": "a"}"#.to_string();
    let (ef, resp) = srv.handle_message(s1, None, Some(&jsep), None);
    assert!(is_success(&resp.unwrap()));
    assert!(ef.is_empty());
}
