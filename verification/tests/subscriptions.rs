//! Checks for the publisher-to-subscriber routing map.

use std::sync::Mutex;

use sfu_core::subscriptions::{
    for_each_subscriber, subscribe, subscribers_to, unpublish, unsubscribe, ContentKind,
    Subscription, SubscriptionMap,
};

#[test]
fn subscription_new_binds_fields() {
    let sub = Subscription::new(7, ContentKind::audio());
    assert_eq!(sub.sess, 7);
    assert_eq!(sub.kind, ContentKind::audio());
}

#[test]
fn content_kind_contains_is_subset() {
    let av = ContentKind { audio: true, video: true, data: false };
    assert!(av.contains(ContentKind::audio()));
    assert!(av.contains(ContentKind::video()));
    assert!(!av.contains(ContentKind::data()));
    assert!(!ContentKind::audio().contains(av));
}

#[test]
fn subscribe_and_filter_by_kind() {
    let mut map = SubscriptionMap::new();
    subscribe(&mut map, 1, ContentKind::audio(), "pub".to_string());
    subscribe(&mut map, 2, ContentKind::video(), "pub".to_string());
    subscribe(&mut map, 3, ContentKind { audio: true, video: true, data: true }, "pub".to_string());
    let audio = subscribers_to(&map, &"pub".to_string(), ContentKind::audio());
    assert_eq!(
        audio,
        vec![
            Subscription::new(1, ContentKind::audio()),
            Subscription::new(3, ContentKind { audio: true, video: true, data: true }),
        ]
    );
    let other = subscribers_to(&map, &"nobody".to_string(), ContentKind::audio());
    assert!(other.is_empty());
}

#[test]
fn unsubscribe_removes_exact_entry() {
    let mut map = SubscriptionMap::new();
    subscribe(&mut map, 1, ContentKind::audio(), "pub".to_string());
    subscribe(&mut map, 1, ContentKind::video(), "pub".to_string());
    unsubscribe(&mut map, 1, ContentKind::audio(), "pub".to_string());
    let left = subscribers_to(
        &map,
        &"pub".to_string(),
        ContentKind { audio: false, video: false, data: false },
    );
    assert_eq!(left, vec![Subscription::new(1, ContentKind::video())]);
}

#[test]
fn unpublish_clears_a_publisher() {
    let mut map = SubscriptionMap::new();
    subscribe(&mut map, 1, ContentKind::data(), "a".to_string());
    subscribe(&mut map, 2, ContentKind::data(), "b".to_string());
    unpublish(&mut map, "a".to_string());
    assert!(subscribers_to(&map, &"a".to_string(), ContentKind::data()).is_empty());
    assert_eq!(
        subscribers_to(&map, &"b".to_string(), ContentKind::data()),
        vec![Subscription::new(2, ContentKind::data())]
    );
}

#[test]
fn for_each_subscriber_visits_in_order() {
    let mut map = SubscriptionMap::new();
    subscribe(&mut map, 4, ContentKind::data(), "p".to_string());
    subscribe(&mut map, 9, ContentKind::data(), "p".to_string());
    let seen: Mutex<Vec<usize>> = Mutex::new(Vec::new());
    for_each_subscriber(&map, &"p".to_string(), ContentKind::data(), |s| {
        seen.lock().unwrap().push(s);
    });
    assert_eq!(*seen.lock().unwrap(), vec![4, 9]);
}
