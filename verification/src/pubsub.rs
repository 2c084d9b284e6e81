//! The publish/subscribe service's identifiers, wire events and
//! feedback values.

use vstd::prelude::*;

use crate::msg::TransportMsg;
use crate::router::RouteRule;

verus! {

/// A channel and the node that publishes it, packed as one 64-bit
/// value: the source node in the upper half, the channel in the
/// lower.
#[derive(Debug, Clone, Copy, PartialEq, Eq, Structural)]
pub struct ChannelIdentify {
    pub source: u32,
    pub channel: u32,
}

impl ChannelIdentify {
    /// A channel identity from its parts.
    pub fn new(source: u32, channel: u32) -> (r: Self)
        ensures
            r.source == source,
            r.channel == channel,
    {
        ChannelIdentify { source, channel }
    }

    /// The node that publishes the channel.
    pub fn source(&self) -> (r: u32)
        ensures
            r == self.source,
    {
        self.source
    }

    /// The channel number itself.
    pub fn uuid(&self) -> (r: u32)
        ensures
            r == self.channel,
    {
        self.channel
    }
}

/// The frame a publisher sends towards remote subscribers of its
/// channel, or nothing when only local subscribers exist: a direct
/// message from the channel's source, carrying the channel as its
/// stream and the published bytes as its payload.
pub fn publish_frame(service_id: u8, channel: ChannelIdentify, remote_count: usize, data: Vec<u8>) -> (r: Option<TransportMsg>)
    ensures
        remote_count == 0 ==> r is None,
        remote_count > 0 ==> (r matches Some(m) && {
            &&& m.header.service_id == service_id
            &&& m.header.route == RouteRule::Direct
            &&& m.header.from_node == Some(channel.source)
            &&& m.header.stream_id == channel.channel
            &&& !m.header.secure
            &&& m.header.meta@ == Seq::<u8>::empty()
            &&& m.payload@ == data@
            &&& crate::msg::header_wf(m.header)
        }),
{
    if remote_count > 0 {
        Some(
            TransportMsg::build(
                service_id,
                RouteRule::Direct,
                channel.channel,
                false,
                Some(channel.source),
                Vec::new(),
                data,
            ),
        )
    } else {
        None
    }
}

/// The membership events the relays exchange for one channel.
#[derive(Debug, Clone, Copy, PartialEq, Eq, Structural)]
pub enum PubsubRemoteEvent {
    Sub(ChannelIdentify),
    Unsub(ChannelIdentify),
    /// Whether the subscription was added; `false` means it already
    /// existed.
    SubAck(ChannelIdentify, bool),
    /// Whether the subscription was removed; `false` means it was
    /// already gone.
    UnsubAck(ChannelIdentify, bool),
}

/// The aggregated numbers carried by a window feedback.
#[derive(Debug, Clone, Copy, PartialEq, Eq, Structural)]
pub struct NumberInfo {
    pub count: u64,
    pub max: i64,
    pub min: i64,
    pub sum: i64,
}

/// What a consumer feeds back to a publisher.
#[derive(Debug, PartialEq, Eq)]
#[verifier::ext_equal]
pub enum FeedbackType {
    /// Raw bytes handed through untouched.
    Passthrough(Vec<u8>),
    /// Numbers aggregated over a window.
    Number { window_ms: u64, info: NumberInfo },
}

/// Events the behavior layer of the service exchanges; the service
/// defines none today beyond the placeholder.
#[derive(Debug, PartialEq, Eq, Structural)]
pub enum PubsubServiceBehaviourEvent {
    Unused,
}

/// Events the handler layer of the service exchanges; the service
/// defines none today beyond the placeholder.
#[derive(Debug, PartialEq, Eq, Structural)]
pub enum PubsubServiceHandlerEvent {
    Unused,
}

/// Events the SDK layer of the service exchanges; the service
/// defines none today beyond the placeholder.
#[derive(Debug, PartialEq, Eq, Structural)]
pub enum PubsubSdkEvent {
    Unused,
}

} // verus!
