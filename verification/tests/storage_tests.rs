use sdn_core::router::RouteRule;
use sdn_core::storage::{
    KeyValueSdkEventError, LocalStorageAction, SimpleLocalEvent, SimpleLocalStorage,
    SimpleRemoteEvent,
};

#[test]
fn set_should_mark_after_ack() {
    let mut storage = SimpleLocalStorage::new(10000);

    storage.set(0, 1, vec![1], None);

    assert_eq!(
        storage.pop_action(),
        Some(LocalStorageAction::SendNet(
            SimpleRemoteEvent::SetKey(0, 1, vec![1], 0, None),
            RouteRule::ToKey(1)
        ))
    );
    assert_eq!(storage.pop_action(), None);

    storage.on_event(2, SimpleLocalEvent::SetAck(0, 1, 0, true));

    storage.tick(100);
    assert_eq!(storage.pop_action(), None);
}

#[test]
fn set_should_generate_new_version() {
    let mut storage = SimpleLocalStorage::new(10000);

    storage.set(0, 1, vec![1], None);
    assert!(storage.pop_action().is_some());
    assert!(storage.pop_action().is_none());

    storage.set(1000, 1, vec![2], None);
    assert_eq!(
        storage.pop_action(),
        Some(LocalStorageAction::SendNet(
            SimpleRemoteEvent::SetKey(1, 1, vec![2], 65536001, None),
            RouteRule::ToKey(1)
        ))
    );
    assert_eq!(storage.pop_action(), None);

    storage.on_event(2, SimpleLocalEvent::SetAck(1, 1, 65536001, true));

    storage.tick(1000);
    assert_eq!(storage.pop_action(), None);
}

#[test]
fn set_should_retry_after_tick_and_not_received_ack() {
    let mut storage = SimpleLocalStorage::new(10000);

    storage.set(0, 1, vec![1], None);
    assert!(storage.pop_action().is_some());
    assert!(storage.pop_action().is_none());

    storage.tick(0);
    assert_eq!(
        storage.pop_action(),
        Some(LocalStorageAction::SendNet(
            SimpleRemoteEvent::SetKey(1, 1, vec![1], 0, None),
            RouteRule::ToKey(1)
        ))
    );
    assert_eq!(storage.pop_action(), None);
}

#[test]
fn set_acked_should_resend_each_sync_each_ms() {
    let mut storage = SimpleLocalStorage::new(10000);

    storage.set(0, 1, vec![1], None);
    assert!(storage.pop_action().is_some());
    assert!(storage.pop_action().is_none());

    storage.on_event(2, SimpleLocalEvent::SetAck(0, 1, 0, true));

    storage.tick(0);
    assert_eq!(storage.pop_action(), None);

    storage.tick(10001);
    assert_eq!(
        storage.pop_action(),
        Some(LocalStorageAction::SendNet(
            SimpleRemoteEvent::SetKey(1, 1, vec![1], 0, None),
            RouteRule::ToKey(1)
        ))
    );
}

#[test]
fn del_should_mark_after_ack() {
    let mut storage = SimpleLocalStorage::new(10000);

    storage.set(0, 1, vec![1], None);
    assert!(storage.pop_action().is_some());
    assert!(storage.pop_action().is_none());
    storage.on_event(2, SimpleLocalEvent::SetAck(0, 1, 0, true));

    storage.del(1);
    assert_eq!(
        storage.pop_action(),
        Some(LocalStorageAction::SendNet(
            SimpleRemoteEvent::Del(1, 1, 0),
            RouteRule::ToKey(1)
        ))
    );
    assert_eq!(storage.pop_action(), None);

    storage.on_event(2, SimpleLocalEvent::DelAck(0, 1, Some(0)));
    storage.tick(0);
    assert_eq!(storage.pop_action(), None);
}

#[test]
fn del_should_mark_after_ack_older() {
    let mut storage = SimpleLocalStorage::new(10000);

    storage.set(0, 1, vec![1], None);
    assert!(storage.pop_action().is_some());
    assert!(storage.pop_action().is_none());
    storage.on_event(2, SimpleLocalEvent::SetAck(0, 1, 0, true));

    storage.set(1000, 1, vec![2], None);
    assert!(storage.pop_action().is_some());
    assert!(storage.pop_action().is_none());
    storage.on_event(2, SimpleLocalEvent::SetAck(0, 1, 0, true));

    storage.del(1);
    assert_eq!(
        storage.pop_action(),
        Some(LocalStorageAction::SendNet(
            SimpleRemoteEvent::Del(2, 1, 65536001),
            RouteRule::ToKey(1)
        ))
    );
    assert_eq!(storage.pop_action(), None);

    storage.on_event(2, SimpleLocalEvent::DelAck(2, 1, Some(65536001)));
    storage.tick(1000);
    assert_eq!(storage.pop_action(), None);
}

#[test]
fn del_should_retry_after_tick_and_not_received_ack() {
    let mut storage = SimpleLocalStorage::new(10000);

    storage.set(0, 1, vec![1], None);
    assert!(storage.pop_action().is_some());
    assert!(storage.pop_action().is_none());
    storage.on_event(2, SimpleLocalEvent::SetAck(0, 1, 0, true));

    storage.del(1);
    assert_eq!(
        storage.pop_action(),
        Some(LocalStorageAction::SendNet(
            SimpleRemoteEvent::Del(1, 1, 0),
            RouteRule::ToKey(1)
        ))
    );
    assert_eq!(storage.pop_action(), None);

    storage.tick(0);
    assert_eq!(
        storage.pop_action(),
        Some(LocalStorageAction::SendNet(
            SimpleRemoteEvent::Del(2, 1, 0),
            RouteRule::ToKey(1)
        ))
    );
}

#[test]
fn sub_should_mark_after_ack() {
    let mut storage = SimpleLocalStorage::new(10000);

    storage.subscribe(1, None, 11111, 10);
    assert_eq!(
        storage.pop_action(),
        Some(LocalStorageAction::SendNet(
            SimpleRemoteEvent::Sub(0, 1, None),
            RouteRule::ToKey(1)
        ))
    );
    assert_eq!(storage.pop_action(), None);

    storage.on_event(2, SimpleLocalEvent::SubAck(0, 1));

    storage.tick(0);
    assert_eq!(storage.pop_action(), None);
}

#[test]
fn sub_event_test() {
    let mut storage = SimpleLocalStorage::new(10000);
    storage.subscribe(1, None, 11111, 10);
    assert_eq!(
        storage.pop_action(),
        Some(LocalStorageAction::SendNet(
            SimpleRemoteEvent::Sub(0, 1, None),
            RouteRule::ToKey(1)
        ))
    );
    assert_eq!(storage.pop_action(), None);

    storage.on_event(2, SimpleLocalEvent::SubAck(0, 1));

    storage.tick(0);
    assert_eq!(storage.pop_action(), None);

    storage.on_event(2, SimpleLocalEvent::OnKeySet(0, 1, vec![1], 0, 1000));
    assert_eq!(
        storage.pop_action(),
        Some(LocalStorageAction::SendNet(
            SimpleRemoteEvent::OnKeySetAck(0),
            RouteRule::ToNode(2)
        ))
    );
    assert_eq!(
        storage.pop_action(),
        Some(LocalStorageAction::LocalOnChanged(10, 11111, 1, Some(vec![1]), 0, 1000))
    );

    storage.on_event(2, SimpleLocalEvent::OnKeyDel(1, 1, 0, 1000));
    assert_eq!(
        storage.pop_action(),
        Some(LocalStorageAction::SendNet(
            SimpleRemoteEvent::OnKeyDelAck(1),
            RouteRule::ToNode(2)
        ))
    );
    assert_eq!(
        storage.pop_action(),
        Some(LocalStorageAction::LocalOnChanged(10, 11111, 1, None, 0, 1000))
    );

    assert_eq!(storage.pop_action(), None);
}

#[test]
fn sub_multi_times_test() {
    let mut storage = SimpleLocalStorage::new(10000);
    storage.subscribe(1, None, 11111, 10);
    storage.subscribe(1, None, 22222, 10);
    assert_eq!(
        storage.pop_action(),
        Some(LocalStorageAction::SendNet(
            SimpleRemoteEvent::Sub(0, 1, None),
            RouteRule::ToKey(1)
        ))
    );
    assert_eq!(storage.pop_action(), None);

    storage.on_event(2, SimpleLocalEvent::SubAck(0, 1));

    storage.on_event(2, SimpleLocalEvent::OnKeySet(0, 1, vec![1], 0, 1000));
    assert_eq!(
        storage.pop_action(),
        Some(LocalStorageAction::SendNet(
            SimpleRemoteEvent::OnKeySetAck(0),
            RouteRule::ToNode(2)
        ))
    );
    assert_eq!(
        storage.pop_action(),
        Some(LocalStorageAction::LocalOnChanged(10, 11111, 1, Some(vec![1]), 0, 1000))
    );
    assert_eq!(
        storage.pop_action(),
        Some(LocalStorageAction::LocalOnChanged(10, 22222, 1, Some(vec![1]), 0, 1000))
    );
}

#[test]
fn sub_multi_times_after_test() {
    let mut storage = SimpleLocalStorage::new(10000);
    storage.subscribe(1, None, 11111, 10);
    assert_eq!(
        storage.pop_action(),
        Some(LocalStorageAction::SendNet(
            SimpleRemoteEvent::Sub(0, 1, None),
            RouteRule::ToKey(1)
        ))
    );
    assert_eq!(storage.pop_action(), None);

    storage.on_event(2, SimpleLocalEvent::SubAck(0, 1));

    storage.on_event(2, SimpleLocalEvent::OnKeySet(0, 1, vec![1], 0, 1000));
    assert_eq!(
        storage.pop_action(),
        Some(LocalStorageAction::SendNet(
            SimpleRemoteEvent::OnKeySetAck(0),
            RouteRule::ToNode(2)
        ))
    );
    assert_eq!(
        storage.pop_action(),
        Some(LocalStorageAction::LocalOnChanged(10, 11111, 1, Some(vec![1]), 0, 1000))
    );
    assert_eq!(storage.pop_action(), None);

    storage.subscribe(1, None, 22222, 10);
    assert_eq!(
        storage.pop_action(),
        Some(LocalStorageAction::LocalOnChanged(10, 22222, 1, Some(vec![1]), 0, 1000))
    );
    assert_eq!(storage.pop_action(), None);
}

#[test]
fn sub_should_retry_after_tick_and_not_received_ack() {
    let mut storage = SimpleLocalStorage::new(10000);

    storage.subscribe(1, None, 11111, 10);
    assert_eq!(
        storage.pop_action(),
        Some(LocalStorageAction::SendNet(
            SimpleRemoteEvent::Sub(0, 1, None),
            RouteRule::ToKey(1)
        ))
    );
    assert_eq!(storage.pop_action(), None);

    storage.tick(0);
    assert_eq!(
        storage.pop_action(),
        Some(LocalStorageAction::SendNet(
            SimpleRemoteEvent::Sub(1, 1, None),
            RouteRule::ToKey(1)
        ))
    );
}

#[test]
fn sub_acked_should_resend_each_sync_each_ms() {
    let mut storage = SimpleLocalStorage::new(10000);

    storage.subscribe(1, None, 11111, 10);
    assert_eq!(
        storage.pop_action(),
        Some(LocalStorageAction::SendNet(
            SimpleRemoteEvent::Sub(0, 1, None),
            RouteRule::ToKey(1)
        ))
    );
    assert_eq!(storage.pop_action(), None);

    storage.on_event(2, SimpleLocalEvent::SubAck(0, 1));

    storage.tick(0);
    assert_eq!(storage.pop_action(), None);

    storage.tick(10001);
    assert_eq!(
        storage.pop_action(),
        Some(LocalStorageAction::SendNet(
            SimpleRemoteEvent::Sub(1, 1, None),
            RouteRule::ToKey(1)
        ))
    );
}

#[test]
fn unsub_should_mark_after_ack() {
    let mut storage = SimpleLocalStorage::new(10000);

    storage.subscribe(1, None, 11111, 10);
    assert!(storage.pop_action().is_some());
    assert!(storage.pop_action().is_none());

    storage.on_event(2, SimpleLocalEvent::SubAck(0, 1));

    storage.unsubscribe(1, 11111, 10);
    assert_eq!(
        storage.pop_action(),
        Some(LocalStorageAction::SendNet(
            SimpleRemoteEvent::Unsub(1, 1),
            RouteRule::ToKey(1)
        ))
    );
    assert_eq!(storage.pop_action(), None);

    storage.on_event(2, SimpleLocalEvent::UnsubAck(1, 1, true));
    storage.tick(0);
    assert_eq!(storage.pop_action(), None);
}

#[test]
fn unsub_should_retry_after_tick_if_not_received_ack() {
    let mut storage = SimpleLocalStorage::new(10000);

    storage.subscribe(1, None, 11111, 10);
    assert!(storage.pop_action().is_some());
    assert!(storage.pop_action().is_none());

    storage.on_event(2, SimpleLocalEvent::SubAck(0, 1));

    storage.unsubscribe(1, 11111, 10);
    assert_eq!(
        storage.pop_action(),
        Some(LocalStorageAction::SendNet(
            SimpleRemoteEvent::Unsub(1, 1),
            RouteRule::ToKey(1)
        ))
    );
    assert_eq!(storage.pop_action(), None);

    storage.tick(0);
    assert_eq!(
        storage.pop_action(),
        Some(LocalStorageAction::SendNet(
            SimpleRemoteEvent::Unsub(2, 1),
            RouteRule::ToKey(1)
        ))
    );
}

#[test]
fn get_should_callback_correct_value() {
    let mut storage = SimpleLocalStorage::new(10000);
    storage.get(0, 1, 11111, 10, 1000);

    assert_eq!(
        storage.pop_action(),
        Some(LocalStorageAction::SendNet(
            SimpleRemoteEvent::Get(0, 1),
            RouteRule::ToKey(1)
        ))
    );
    assert_eq!(storage.pop_action(), None);

    storage.on_event(2, SimpleLocalEvent::GetAck(0, 1, Some((vec![1], 0, 1000))));

    assert_eq!(
        storage.pop_action(),
        Some(LocalStorageAction::LocalOnGet(10, 11111, 1, Ok(Some((vec![1], 0, 1000)))))
    );
    assert_eq!(storage.pop_action(), None);
}

#[test]
fn get_should_timeout_after_no_ack() {
    let mut storage = SimpleLocalStorage::new(10000);

    storage.get(0, 1, 11111, 10, 1000);

    assert_eq!(
        storage.pop_action(),
        Some(LocalStorageAction::SendNet(
            SimpleRemoteEvent::Get(0, 1),
            RouteRule::ToKey(1)
        ))
    );
    assert_eq!(storage.pop_action(), None);

    storage.tick(1001);

    assert_eq!(
        storage.pop_action(),
        Some(LocalStorageAction::LocalOnGet(
            10,
            11111,
            1,
            Err(KeyValueSdkEventError::Timeout)
        ))
    );
    assert_eq!(storage.pop_action(), None);
}
