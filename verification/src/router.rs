//! Routing abstractions consumed by the plane and the bus.
//!
//! A `RouteRule` is the addressing mode carried by every on-wire
//! message; a `RouteAction` is the router's verdict for one rule.  The
//! concrete routing table stays outside the core: callers obtain a
//! `RouteAction` from it and hand the verdict to the bus, which is
//! verified against every possible verdict.

use vstd::prelude::*;

use crate::identity::ConnId;

verus! {

/// Identifier of a node in the overlay.
pub type NodeId = u32;

/// Addressing mode of an on-wire message.
#[derive(Debug, Clone, Copy, PartialEq, Eq, Structural)]
pub enum RouteRule {
    /// Deliver on the connection the caller already holds.
    Direct,
    /// Deliver to one node.
    ToNode(NodeId),
    /// Deliver to the node closest to a key.
    ToKey(u32),
    /// Deliver to a host of a service.
    ToService(u8),
}

/// The routing table's verdict for one rule.
#[derive(Debug, Clone, Copy, PartialEq, Eq, Structural)]
pub enum RouteAction {
    /// The message is for this node.
    Local,
    /// Forward over the given connection towards the given node.
    Next(ConnId, NodeId),
    /// No usable path; the message is dropped.
    Reject,
}

impl RouteAction {
    /// Whether the verdict names a connection to forward over.
    pub fn is_next(&self) -> (r: bool)
        ensures
            r == (self is Next),
    {
        match self {
            RouteAction::Next(_, _) => true,
            _ => false,
        }
    }
}

/// Where a service-addressed message should go, as the table answers
/// it: this node hosts the service, or a remote host over a
/// connection.
#[derive(Debug, Clone, Copy, PartialEq, Eq, Structural)]
pub enum ServiceDestination {
    Local,
    Remote(ConnId, NodeId),
}

/// The verdict for a node-addressed message, given this node's own
/// identifier and the table's next hop towards the destination: the
/// local node answers for itself, a known hop forwards, and an
/// unknown destination is rejected.
pub fn resolve_path_to_node(local_node: NodeId, dest: NodeId, next: Option<(ConnId, NodeId)>) -> (r:
    RouteAction)
    ensures
        dest == local_node ==> r is Local,
        dest != local_node ==> r == match next {
            Some(p) => RouteAction::Next(p.0, p.1),
            None => RouteAction::Reject,
        },
{
    if dest == local_node {
        return RouteAction::Local;
    }
    match next {
        Some(p) => RouteAction::Next(p.0, p.1),
        None => RouteAction::Reject,
    }
}

/// The verdict for a key-addressed message, given the closest
/// reachable node the table knows: a closer peer receives the
/// message, and with no closer peer the local node is the authority.
pub fn resolve_path_to_key(closest: Option<(ConnId, NodeId)>) -> (r: RouteAction)
    ensures
        r == match closest {
            Some(p) => RouteAction::Next(p.0, p.1),
            None => RouteAction::Local,
        },
{
    match closest {
        Some(p) => RouteAction::Next(p.0, p.1),
        None => RouteAction::Local,
    }
}

/// The verdict for a service-addressed message, given the table's
/// chosen host: no host rejects the message.
pub fn resolve_path_to_service(dest: Option<ServiceDestination>) -> (r: RouteAction)
    ensures
        r == match dest {
            Some(ServiceDestination::Local) => RouteAction::Local,
            Some(ServiceDestination::Remote(c, n)) => RouteAction::Next(c, n),
            None => RouteAction::Reject,
        },
{
    match dest {
        Some(ServiceDestination::Local) => RouteAction::Local,
        Some(ServiceDestination::Remote(c, n)) => RouteAction::Next(c, n),
        None => RouteAction::Reject,
    }
}

/// The interface of a routing table, answered by the concrete router
/// outside the core.  `path_to` resolves one rule for one service.
pub trait RouterTable {
    /// Record that a service is hosted locally; idempotent.
    fn register_service(&mut self, service_id: u8);
    /// The verdict for a node-addressed message.
    fn path_to_node(&self, dest: NodeId) -> RouteAction;
    /// The verdict for a key-addressed message.
    fn path_to_key(&self, key: u32) -> RouteAction;
    /// The verdict for a service-addressed message.
    fn path_to_service(&self, service_id: u8) -> RouteAction;

    /// The verdict for one rule: a `Direct` message is always for the
    /// local node, the other rules are answered by the table.
    fn path_to(&self, rule: &RouteRule, service_id: u8) -> (r: RouteAction)
        ensures
            *rule is Direct ==> r is Local,
    {
        match rule {
            RouteRule::Direct => RouteAction::Local,
            RouteRule::ToNode(n) => self.path_to_node(*n),
            RouteRule::ToKey(k) => self.path_to_key(*k),
            RouteRule::ToService(_) => self.path_to_service(service_id),
        }
    }
}

} // verus!
