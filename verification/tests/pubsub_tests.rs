use sdn_core::pubsub::{publish_frame, ChannelIdentify, FeedbackType, NumberInfo, PubsubRemoteEvent};
use sdn_core::router::RouteRule;

#[test]
fn channel_identify_carries_its_parts() {
    let id = ChannelIdentify::new(1, 1111);
    assert_eq!(id.source(), 1);
    assert_eq!(id.uuid(), 1111);
}

#[test]
fn membership_events_compare_by_value() {
    let id = ChannelIdentify::new(1, 1111);
    assert_eq!(PubsubRemoteEvent::Sub(id), PubsubRemoteEvent::Sub(id));
    assert_ne!(PubsubRemoteEvent::Sub(id), PubsubRemoteEvent::Unsub(id));
    assert_eq!(
        PubsubRemoteEvent::SubAck(id, true),
        PubsubRemoteEvent::SubAck(ChannelIdentify::new(1, 1111), true)
    );
}

#[test]
fn feedback_values_compare_by_value() {
    assert_eq!(
        FeedbackType::Passthrough(vec![1]),
        FeedbackType::Passthrough(vec![1])
    );
    assert_ne!(
        FeedbackType::Passthrough(vec![1]),
        FeedbackType::Passthrough(vec![2])
    );
    let info = NumberInfo { count: 2, max: 2, min: 1, sum: 3 };
    assert_eq!(
        FeedbackType::Number { window_ms: 200, info },
        FeedbackType::Number { window_ms: 200, info }
    );
}

#[test]
fn publish_frame_only_when_remotes_exist() {
    let channel = ChannelIdentify::new(1, 1111);
    assert!(publish_frame(6, channel, 0, vec![1, 2, 3, 4]).is_none());

    let msg = publish_frame(6, channel, 2, vec![1, 2, 3, 4]).expect("remotes want a frame");
    assert_eq!(msg.header.service_id, 6);
    assert_eq!(msg.header.route, RouteRule::Direct);
    assert_eq!(msg.header.from_node, Some(1));
    assert_eq!(msg.header.stream_id, 1111);
    assert!(!msg.header.secure);
    assert_eq!(msg.payload, vec![1, 2, 3, 4]);
}
