//! What the plane consumes from a transport: the event taxonomy of a
//! connection, the reasons a connection is refused or lost, and the
//! liveness rule every connection receiver enforces.

use vstd::prelude::*;

use crate::identity::ConnId;
use crate::msg::TransportMsg;

verus! {

/// A connection attempt the transport has accepted to make; its
/// identifier names the connection that may come of it.
pub struct TransportConnectingOutgoing {
    pub conn_id: ConnId,
}

/// Periodic measurements of one connection.
#[derive(Debug, Clone, Copy, PartialEq, Eq, Structural)]
pub struct ConnectionStats {
    pub rtt_ms: u16,
    pub sending_kbps: u32,
    pub send_est_kbps: u32,
    pub loss_percent: u32,
    pub over_use: bool,
}

/// What a connection receiver yields: a message or a measurement.
#[derive(Debug, PartialEq, Eq)]
#[verifier::ext_equal]
pub enum ConnectionEvent {
    Msg(TransportMsg),
    Stats(ConnectionStats),
}

/// Why a behavior vetoes a connection.
#[derive(Debug, Clone, PartialEq, Eq)]
#[verifier::ext_equal]
pub enum ConnectionRejectReason {
    ConnectionLimited,
    ValidateError,
    Custom(String),
}

/// Why an outgoing connection failed.
#[derive(Debug, Clone, PartialEq, Eq)]
#[verifier::ext_equal]
pub enum OutgoingConnectionError {
    TooManyConnection,
    AuthenticationError,
    UnsupportedProtocol,
    DestinationNotFound,
    BehaviorRejected(ConnectionRejectReason),
}

/// Why the plane's event loop ends.
#[derive(Debug, Clone, Copy, PartialEq, Eq, Structural)]
pub enum NetworkPlaneError {
    TransportError,
    InternalQueueError,
    RuntimeError,
}

/// The pending side of a connection request: the transport answers
/// it by accepting or by rejecting with a reason.
pub trait ConnectionAcceptor {
    fn accept(&mut self);
    fn reject(&mut self, err: ConnectionRejectReason);
}

/// An answer channel of the request/response transport.
pub trait RpcAnswer<Res> {
    fn ok(&mut self, res: Res);
    fn error(&mut self, code: u32, message: &str);
}

/// How long a connection may go without a pong before it is closed,
/// in milliseconds.
pub const PONG_TIMEOUT_MS: u64 = 10000;

/// The liveness rule of one connection receiver: a pong refreshes the
/// clock, and a tick with no pong for longer than the timeout closes
/// the connection for good.
pub struct ConnLiveness {
    pub last_pong_ts: u64,
    pub closed: bool,
}

impl ConnLiveness {
    /// A fresh connection, considered alive as of `now`.
    pub fn new(now: u64) -> (r: Self)
        ensures
            r.last_pong_ts == now,
            !r.closed,
    {
        ConnLiveness { last_pong_ts: now, closed: false }
    }

    /// Take a pong carrying the echo of a ping sent at `sent_ts`:
    /// the liveness clock is refreshed and the measured round trip is
    /// reported, clamped into sixteen bits.
    pub fn on_pong(&mut self, now: u64, sent_ts: u64) -> (rtt: u16)
        ensures
            final(self).last_pong_ts == now,
            final(self).closed == old(self).closed,
            sent_ts <= now && now - sent_ts <= u16::MAX ==> rtt == now - sent_ts,
    {
        self.last_pong_ts = now;
        if sent_ts <= now && now - sent_ts <= 0xffff {
            (now - sent_ts) as u16
        } else {
            0xffff
        }
    }

    /// One tick at `now`: the connection closes exactly when the last
    /// pong is older than the timeout, and stays closed once closed.
    pub fn on_tick(&mut self, now: u64) -> (close: bool)
        ensures
            final(self).last_pong_ts == old(self).last_pong_ts,
            final(self).closed == (old(self).closed || old(self).last_pong_ts + PONG_TIMEOUT_MS
                < now),
            close == final(self).closed,
    {
        if self.closed {
            return true;
        }
        if now > self.last_pong_ts && now - self.last_pong_ts > PONG_TIMEOUT_MS {
            self.closed = true;
        }
        self.closed
    }
}

} // verus!
