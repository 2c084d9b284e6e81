//! The plane bus: the fabric that fans messages between behaviors,
//! handlers and the network.
//!
//! The bus keeps one entry per live connection — its identifier and
//! its remote node — and answers, for each message, where it must go:
//! which connection a handler-bound event is delivered on, and
//! whether a network-bound message is dropped, delivered locally, or
//! forwarded over a tracked connection.  The queues and senders that
//! carry the traffic live outside; they consult the bus and carry out
//! its verdicts.

use vstd::prelude::*;

use crate::identity::ConnId;
use crate::router::RouteAction;

verus! {

/// Where a handler-bound event is addressed: any connection of a
/// node, or one exact connection.
#[derive(Debug, Clone, Copy, PartialEq, Eq, Structural)]
pub enum CrossHandlerRoute {
    NodeFirst(u32),
    Conn(ConnId),
}

/// What becomes of a network-bound message.
#[derive(Debug, Clone, Copy, PartialEq, Eq, Structural)]
pub enum NetDecision {
    /// No usable path: the message is dropped.
    Drop,
    /// The message is for this node's own services.
    DeliverLocal,
    /// Send over this tracked connection.
    Forward(ConnId),
}

/// Each connection identifier occurs at most once.
pub open spec fn distinct_conns(s: Seq<(ConnId, u32)>) -> bool {
    forall|i: int, j: int| 0 <= i < j < s.len() ==> (#[trigger] s[i]).0 != (#[trigger] s[j]).0
}

/// A connection identifier occurs in the table.
pub open spec fn bus_has_conn(s: Seq<(ConnId, u32)>, c: ConnId) -> bool {
    exists|i: int| 0 <= i < s.len() && (#[trigger] s[i]).0 == c
}

/// The by-connection view: the node a tracked connection leads to.
pub open spec fn by_conn(s: Seq<(ConnId, u32)>, c: ConnId) -> Option<u32> {
    if bus_has_conn(s, c) {
        Some(s[choose|i: int| 0 <= i < s.len() && (#[trigger] s[i]).0 == c].1)
    } else {
        None
    }
}

/// The by-node view: the set of connections leading to a node.
pub open spec fn by_node(s: Seq<(ConnId, u32)>, n: u32) -> Set<ConnId> {
    Set::new(|c: ConnId| exists|i: int| 0 <= i < s.len() && #[trigger] s[i] == (c, n))
}

/// The bus table: one entry per live connection, in insertion order.
pub struct PlaneBus {
    pub conns: Vec<(ConnId, u32)>,
}

/// The index of a connection in the table, if tracked.
fn index_of_conn(v: &Vec<(ConnId, u32)>, c: ConnId) -> (r: Option<usize>)
    ensures
        match r {
            Some(i) => i < v@.len() && v@[i as int].0 == c,
            None => !bus_has_conn(v@, c),
        },
{
    let mut i: usize = 0;
    while i < v.len()
        invariant
            i <= v@.len(),
            forall|j: int| 0 <= j < i ==> (#[trigger] v@[j]).0 != c,
        decreases v@.len() - i,
    {
        if v[i].0.uuid == c.uuid && v[i].0.direction == c.direction {
            return Some(i);
        }
        i += 1;
    }
    None
}

impl PlaneBus {
    /// One entry per connection identifier.
    pub open spec fn wf(self) -> bool {
        distinct_conns(self.conns@)
    }

    /// An empty bus, tracking nothing.
    pub fn new() -> (r: Self)
        ensures
            r.wf(),
            r.conns@ == Seq::<(ConnId, u32)>::empty(),
    {
        PlaneBus { conns: Vec::new() }
    }

    /// Track a connection.  A duplicate identifier is refused and the
    /// table is left alone; a new one is appended.
    pub fn add_conn(&mut self, node: u32, conn: ConnId) -> (r: bool)
        requires
            old(self).wf(),
        ensures
            final(self).wf(),
            r == !bus_has_conn(old(self).conns@, conn),
            r ==> final(self).conns@ == old(self).conns@.push((conn, node)),
            !r ==> final(self).conns@ == old(self).conns@,
    {
        match index_of_conn(&self.conns, conn) {
            Some(_) => false,
            None => {
                self.conns.push((conn, node));
                true
            },
        }
    }

    /// Stop tracking a connection.  The entry with that identifier is
    /// removed, if any; the answer says whether one was.
    pub fn remove_conn(&mut self, node: u32, conn: ConnId) -> (r: bool)
        requires
            old(self).wf(),
        ensures
            final(self).wf(),
            r == bus_has_conn(old(self).conns@, conn),
            !r ==> final(self).conns@ == old(self).conns@,
            forall|i: int|
                0 <= i < old(self).conns@.len() && (#[trigger] old(self).conns@[i]).0 == conn
                    ==> final(self).conns@ == old(self).conns@.remove(i),
    {
        match index_of_conn(&self.conns, conn) {
            Some(i) => {
                self.conns.remove(i);
                proof {
                    assert forall|j: int|
                        0 <= j < old(self).conns@.len() && (#[trigger] old(self).conns@[j]).0
                            == conn implies j == i as int by {
                        assert(old(self).conns@[i as int].0 == conn);
                    }
                }
                true
            },
            None => false,
        }
    }

    /// The node a tracked connection leads to, if any.
    pub fn conn_node(&self, conn: ConnId) -> (r: Option<u32>)
        requires
            self.wf(),
        ensures
            r == by_conn(self.conns@, conn),
    {
        match index_of_conn(&self.conns, conn) {
            Some(i) => {
                proof {
                    assert(bus_has_conn(self.conns@, conn));
                    let w = choose|w: int|
                        0 <= w < self.conns@.len() && (#[trigger] self.conns@[w]).0 == conn;
                    assert(w == i as int);
                }
                Some(self.conns[i].1)
            },
            None => None,
        }
    }

    /// The connection a handler-bound event is delivered on: the
    /// exact connection it names, or the oldest connection of the
    /// node it names; nothing if the target is not tracked, and the
    /// event is dropped.
    pub fn send_to_handler(&self, route: CrossHandlerRoute) -> (r: Option<ConnId>)
        requires
            self.wf(),
        ensures
            route matches CrossHandlerRoute::Conn(c) ==> r == if bus_has_conn(self.conns@, c) {
                Some(c)
            } else {
                None::<ConnId>
            },
            route matches CrossHandlerRoute::NodeFirst(n) ==> {
                &&& (forall|i: int|
                    0 <= i < self.conns@.len() ==> (#[trigger] self.conns@[i]).1 != n) ==> r
                    is None
                &&& forall|i: int|
                    (0 <= i < self.conns@.len() && (#[trigger] self.conns@[i]).1 == n && (forall|
                        j: int,
                    |
                        0 <= j < i ==> (#[trigger] self.conns@[j]).1 != n)) ==> r == Some(
                        self.conns@[i].0,
                    )
            },
            r matches Some(c) ==> bus_has_conn(self.conns@, c),
    {
        match route {
            CrossHandlerRoute::Conn(c) => {
                match index_of_conn(&self.conns, c) {
                    Some(_) => Some(c),
                    None => None,
                }
            },
            CrossHandlerRoute::NodeFirst(n) => {
                let mut i: usize = 0;
                while i < self.conns.len()
                    invariant
                        i <= self.conns@.len(),
                        forall|j: int| 0 <= j < i ==> (#[trigger] self.conns@[j]).1 != n,
                        route == CrossHandlerRoute::NodeFirst(n),
                        self.wf(),
                    decreases self.conns@.len() - i,
                {
                    if self.conns[i].1 == n {
                        return Some(self.conns[i].0);
                    }
                    i += 1;
                }
                None
            },
        }
    }

    /// The fate of a network-bound message under the router's
    /// verdict.  A rejection means the message is dropped; a local
    /// verdict means this node consumes the message itself; a
    /// forwarding verdict names a connection, and the message goes
    /// out on that connection only while the bus tracks it.
    pub fn send_to_net(&self, action: RouteAction) -> (r: NetDecision)
        requires
            self.wf(),
        ensures
            action is Reject ==> r == NetDecision::Drop,
            action is Local ==> r == NetDecision::DeliverLocal,
            action matches RouteAction::Next(c, n) ==> r == if bus_has_conn(self.conns@, c) {
                NetDecision::Forward(c)
            } else {
                NetDecision::Drop
            },
    {
        match action {
            RouteAction::Reject => NetDecision::Drop,
            RouteAction::Local => NetDecision::DeliverLocal,
            RouteAction::Next(c, _n) => {
                match index_of_conn(&self.conns, c) {
                    Some(_) => NetDecision::Forward(c),
                    None => NetDecision::Drop,
                }
            },
        }
    }

    /// Whether a close on one connection has a tracked target.
    pub fn close_conn(&self, conn: ConnId) -> (r: bool)
        requires
            self.wf(),
        ensures
            r == bus_has_conn(self.conns@, conn),
    {
        index_of_conn(&self.conns, conn).is_some()
    }

    /// Every tracked connection of a node, oldest first: the ones a
    /// close of the node must close.
    pub fn close_node(&self, node: u32) -> (r: Vec<ConnId>)
        requires
            self.wf(),
        ensures
            r@ == self.conns@.filter(|p: (ConnId, u32)| p.1 == node).map_values(
                |p: (ConnId, u32)| p.0,
            ),
    {
        let mut out: Vec<ConnId> = Vec::new();
        let mut i: usize = 0;
        while i < self.conns.len()
            invariant
                i <= self.conns@.len(),
                out@ == self.conns@.take(i as int).filter(|p: (ConnId, u32)| p.1 == node)
                    .map_values(|p: (ConnId, u32)| p.0),
            decreases self.conns@.len() - i,
        {
            proof {
                assert(self.conns@.take(i + 1).drop_last() =~= self.conns@.take(i as int));
                assert(self.conns@.take(i + 1).last() == self.conns@[i as int]);
            }
            if self.conns[i].1 == node {
                out.push(self.conns[i].0);
            }
            proof {
                reveal_with_fuel(Seq::filter, 2);
                let f = |p: (ConnId, u32)| p.1 == node;
                let g = |p: (ConnId, u32)| p.0;
                assert(self.conns@.take(i + 1).filter(f) == (if f(self.conns@[i as int]) {
                    self.conns@.take(i as int).filter(f).push(self.conns@[i as int])
                } else {
                    self.conns@.take(i as int).filter(f)
                }));
                assert(out@ =~= self.conns@.take(i + 1).filter(f).map_values(g));
            }
            i += 1;
        }
        proof {
            assert(self.conns@.take(self.conns@.len() as int) =~= self.conns@);
        }
        out
    }
}

/// The bus's two views agree: a connection is mapped to a node by the
/// by-connection view exactly when it belongs to that node's set in
/// the by-node view, and each tracked connection has exactly one
/// entry.
pub proof fn lemma_bus_views_agree(bus: PlaneBus)
    requires
        bus.wf(),
    ensures
        forall|c: ConnId, n: u32|
            #[trigger] by_node(bus.conns@, n).contains(c) <==> by_conn(bus.conns@, c) == Some(n),
        forall|c: ConnId|
            bus_has_conn(bus.conns@, c) ==> exists|i: int|
                0 <= i < bus.conns@.len() && (#[trigger] bus.conns@[i]).0 == c && (forall|j: int|
                    0 <= j < bus.conns@.len() && (#[trigger] bus.conns@[j]).0 == c ==> j == i),
{
    let s = bus.conns@;
    assert forall|c: ConnId, n: u32| #[trigger]
        by_node(s, n).contains(c) <==> by_conn(s, c) == Some(n) by {
        if by_node(s, n).contains(c) {
            let i = choose|i: int| 0 <= i < s.len() && #[trigger] s[i] == (c, n);
            assert(bus_has_conn(s, c));
            let w = choose|w: int| 0 <= w < s.len() && (#[trigger] s[w]).0 == c;
            assert(w == i);
            assert(by_conn(s, c) == Some(n));
        }
        if by_conn(s, c) == Some(n) {
            let w = choose|w: int| 0 <= w < s.len() && (#[trigger] s[w]).0 == c;
            assert(s[w] == (c, n));
            assert(by_node(s, n).contains(c));
        }
    }
    assert forall|c: ConnId| bus_has_conn(s, c) implies exists|i: int|
        0 <= i < s.len() && (#[trigger] s[i]).0 == c && (forall|j: int|
            0 <= j < s.len() && (#[trigger] s[j]).0 == c ==> j == i) by {
        let i = choose|i: int| 0 <= i < s.len() && (#[trigger] s[i]).0 == c;
        assert(0 <= i < s.len() && s[i].0 == c && (forall|j: int|
            0 <= j < s.len() && (#[trigger] s[j]).0 == c ==> j == i));
    }
}

} // verus!
