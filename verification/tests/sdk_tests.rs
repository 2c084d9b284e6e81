use sdn_core::kv_sdk::{map_get_error, KeyValueSdk, KeyValueSdkEvent, PublisherManager};
use sdn_core::storage::{KeyValueSdkEventError, SimpleKeyValueGetError};

#[test]
fn sdk_set_should_fire_awaker_and_action() {
    let mut sdk = KeyValueSdk::new();

    sdk.set(1000, vec![1], Some(20000));
    assert_eq!(sdk.pop_awake_count(), 1);

    assert_eq!(
        sdk.pop_action(),
        Some(KeyValueSdkEvent::SetKey(1000, vec![1], Some(20000)))
    );

    sdk.del(1000);
    assert_eq!(sdk.pop_awake_count(), 1);

    assert_eq!(sdk.pop_action(), Some(KeyValueSdkEvent::Del(1000)))
}

#[test]
fn sdk_sub_should_fire_awaker_and_action() {
    let mut sdk = KeyValueSdk::new();

    let handler1 = sdk.subscribe(1000, Some(20000));
    let handler2 = sdk.subscribe(1000, Some(20000));

    assert_eq!(sdk.pop_awake_count(), 2);

    assert_eq!(
        sdk.pop_action(),
        Some(KeyValueSdkEvent::Sub(0, 1000, Some(20000)))
    );
    assert_eq!(
        sdk.pop_action(),
        Some(KeyValueSdkEvent::Sub(1, 1000, Some(20000)))
    );
    assert_eq!(sdk.pop_action(), None);

    sdk.unsubscribe(1000, handler1);
    sdk.unsubscribe(1000, handler2);
    assert_eq!(sdk.pop_awake_count(), 2);

    assert_eq!(sdk.pop_action(), Some(KeyValueSdkEvent::Unsub(0, 1000)));
    assert_eq!(sdk.pop_action(), Some(KeyValueSdkEvent::Unsub(1, 1000)));
    assert_eq!(sdk.pop_action(), None);
}

#[test]
fn sdk_hset_should_fire_awaker_and_action() {
    let mut sdk = KeyValueSdk::new();

    sdk.hset(1000, 11, vec![1], Some(20000));
    assert_eq!(sdk.pop_awake_count(), 1);

    assert_eq!(
        sdk.pop_action(),
        Some(KeyValueSdkEvent::SetH(1000, 11, vec![1], Some(20000)))
    );
    assert_eq!(sdk.pop_action(), None);

    sdk.hdel(1000, 11);
    assert_eq!(sdk.pop_awake_count(), 1);

    assert_eq!(sdk.pop_action(), Some(KeyValueSdkEvent::DelH(1000, 11)));
    assert_eq!(sdk.pop_action(), None);
}

#[test]
fn sdk_hsub_should_fire_awaker_and_action() {
    let mut sdk = KeyValueSdk::new();

    let handler = sdk.hsubscribe(1000, Some(20000));
    assert_eq!(sdk.pop_awake_count(), 1);

    assert_eq!(
        sdk.pop_action(),
        Some(KeyValueSdkEvent::SubH(0, 1000, Some(20000)))
    );
    assert_eq!(sdk.pop_action(), None);

    sdk.hunsubscribe_raw(1000, handler);
    assert_eq!(sdk.pop_awake_count(), 1);

    assert_eq!(sdk.pop_action(), Some(KeyValueSdkEvent::UnsubH(0, 1000)));
    assert_eq!(sdk.pop_action(), None);
}

#[test]
fn sdk_get_queues_request_and_remembers_it() {
    let mut sdk = KeyValueSdk::new();

    let req = sdk.get(1000, 100);
    assert_eq!(req, 0);
    assert_eq!(sdk.pop_awake_count(), 1);
    assert_eq!(sdk.pop_action(), Some(KeyValueSdkEvent::Get(0, 1000, 100)));

    let req2 = sdk.hget(1000, 100);
    assert_eq!(req2, 1);
    assert_eq!(sdk.pop_awake_count(), 1);
    assert_eq!(sdk.pop_action(), Some(KeyValueSdkEvent::GetH(1, 1000, 100)));
}

#[test]
fn publisher_targets_all_and_single() {
    let mut publisher = PublisherManager::new();
    let a = publisher.subscribe(7);
    let b = publisher.subscribe(7);
    let c = publisher.subscribe(9);

    assert_eq!(publisher.publish_targets(None, 7), vec![a, b]);
    assert_eq!(publisher.publish_targets(None, 9), vec![c]);
    assert_eq!(publisher.publish_targets(Some(b), 7), vec![b]);
    assert_eq!(publisher.publish_targets(Some(c), 7), Vec::<u64>::new());
    assert_eq!(publisher.publish_targets(None, 8), Vec::<u64>::new());
}

#[test]
fn publisher_unsub_drops_emptied_key() {
    let mut publisher = PublisherManager::new();
    let a = publisher.subscribe(7);
    let b = publisher.subscribe(7);

    assert!(!publisher.unsub_raw(7, a));
    assert_eq!(publisher.publish_targets(None, 7), vec![b]);
    assert!(publisher.unsub_raw(7, b));
    assert_eq!(publisher.publish_targets(None, 7), Vec::<u64>::new());
}

#[test]
fn get_errors_map_one_to_one() {
    assert_eq!(
        map_get_error(KeyValueSdkEventError::NetworkError),
        SimpleKeyValueGetError::NetworkError
    );
    assert_eq!(
        map_get_error(KeyValueSdkEventError::Timeout),
        SimpleKeyValueGetError::Timeout
    );
    assert_eq!(
        map_get_error(KeyValueSdkEventError::InternalError),
        SimpleKeyValueGetError::InternalError
    );
}

#[test]
fn on_event_dispatches_changes_and_answers() {
    let mut sdk = KeyValueSdk::new();
    let a = sdk.subscribe(7, None);
    let req = sdk.get(7, 1000);

    assert_eq!(
        sdk.on_event(KeyValueSdkEvent::OnKeyChanged(a, 7, Some(vec![1]), 0, 2)),
        vec![a]
    );
    assert_eq!(
        sdk.on_event(KeyValueSdkEvent::OnKeyChanged(a + 1, 7, Some(vec![1]), 0, 2)),
        Vec::<u64>::new()
    );
    assert_eq!(
        sdk.on_event(KeyValueSdkEvent::OnGet(req, 7, Ok(None))),
        vec![req]
    );
    // the answered request is forgotten
    assert_eq!(
        sdk.on_event(KeyValueSdkEvent::OnGet(req, 7, Ok(None))),
        Vec::<u64>::new()
    );
}
