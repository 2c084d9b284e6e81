//! The plane's decision core: connection lifecycle and action
//! dispatch.
//!
//! The plane composes the registered behaviors over one transport.
//! Behaviors themselves run outside; this module decides what the
//! plane does with what they answer: whether a connection request
//! passes every behavior's check, which per-connection tasks to
//! spawn, and in what order behavior actions reach the outer world.
//! Actions are drained strictly first-in, first-out, so the outside
//! observes each behavior's actions in the order it produced them.

use vstd::prelude::*;

use crate::bus::CrossHandlerRoute;
use crate::identity::{ConnId, NodeAddr};
use crate::msg::TransportMsg;
use crate::transport::ConnectionRejectReason;
use std::collections::VecDeque;

verus! {

/// What a behavior asks the plane to do.
#[derive(Debug, PartialEq, Eq)]
#[verifier::ext_equal]
pub enum NetworkBehaviorAction<HE, SE> {
    /// Open a connection to this address.
    ConnectTo(NodeAddr),
    /// Route a message by its own header.
    ToNet(TransportMsg),
    /// Send a message over one exact connection.
    ToNetConn(ConnId, TransportMsg),
    /// Send a message to one node.
    ToNetNode(u32, TransportMsg),
    /// Deliver an event to a handler.
    ToHandler(CrossHandlerRoute, HE),
    /// Close one connection.
    CloseConn(ConnId),
    /// Close every connection of one node.
    CloseNode(u32),
    /// Hand an event to another service's SDK.
    ToSdkService(u8, SE),
}

/// What the plane asks its outer driver to do.
#[derive(Debug, PartialEq, Eq)]
#[verifier::ext_equal]
pub enum PlaneInternalAction<HE, SE> {
    /// Start the driver task of an established connection; the mask
    /// says which registered behaviors opted in with a handler.
    SpawnConnection { outgoing: bool, node: u32, conn: ConnId, handlers: Vec<bool> },
    /// Let a pending outgoing connection proceed.
    ContinuePendingOutgoingConnection(u64),
    /// Abandon a pending outgoing connection.
    DropPendingOutgoingConnection(u64),
    /// Carry out one behavior's action.
    BehaviorAction(u8, NetworkBehaviorAction<HE, SE>),
}

/// An event arriving on the plane's internal queue: a wake-up for a
/// behavior, an event climbing from a handler to its behavior, a
/// message that resolved locally, a connection that ended, or an
/// outgoing attempt to record.
#[derive(Debug, PartialEq, Eq)]
#[verifier::ext_equal]
pub enum NetworkPlaneInternalEvent<BE> {
    AwakeBehaviour { service_id: u8 },
    ToBehaviourFromHandler { service_id: u8, node_id: u32, conn_id: ConnId, event: BE },
    ToBehaviourLocalMsg { service_id: u8, msg: TransportMsg },
    IncomingDisconnected(u32, ConnId),
    OutgoingDisconnected(u32, ConnId),
    OutgoingRequest(u32, ConnId),
}

/// Which behavior hook the outer driver must call for one internal
/// event, carrying the event's payload through unchanged.
#[derive(Debug, PartialEq, Eq)]
#[verifier::ext_equal]
pub enum InternalDispatch<BE> {
    /// Call the behavior's wake-up hook.
    Awake(u8),
    /// Hand the behavior an event one of its handlers sent up.
    HandlerEvent(u8, u32, ConnId, BE),
    /// Hand the behavior a message that resolved to this node.
    LocalMsg(u8, TransportMsg),
    /// Tell every behavior that a connection ended; `outgoing` says
    /// which side had opened it.
    Disconnected { outgoing: bool, node: u32, conn: ConnId },
    /// Nothing to call: the event only updated the plane's own state.
    Recorded,
}

/// The decision state of one plane: the registered services in
/// registration order, the pending outgoing connections, and the
/// queue of actions awaiting the outer driver.
pub struct PlaneInternal<HE, SE> {
    pub node_id: u32,
    pub services: Vec<u8>,
    pub pending_outgoing: Vec<(u64, u32)>,
    pub actions: VecDeque<PlaneInternalAction<HE, SE>>,
}

/// The first veto among the behaviors' verdicts, if any: behaviors
/// are consulted in registration order and the first rejection wins.
pub open spec fn first_reject(verdicts: Seq<Option<ConnectionRejectReason>>) -> Option<
    ConnectionRejectReason,
>
    decreases verdicts.len(),
{
    if verdicts.len() == 0 {
        None
    } else {
        match verdicts[0] {
            Some(r) => Some(r),
            None => first_reject(verdicts.drop_first()),
        }
    }
}

impl<HE, SE> PlaneInternal<HE, SE> {
    /// A fresh plane for `node_id` with the given services, nothing
    /// pending and nothing queued.
    pub fn new(node_id: u32, services: Vec<u8>) -> (r: Self)
        ensures
            r.node_id == node_id,
            r.services == services,
            r.pending_outgoing@ == Seq::<(u64, u32)>::empty(),
            r.actions@ == Seq::<PlaneInternalAction<HE, SE>>::empty(),
    {
        PlaneInternal { node_id, services, pending_outgoing: Vec::new(), actions: VecDeque::new() }
    }

    /// Decide one connection request from the behaviors' verdicts, in
    /// registration order.  The request passes iff no behavior vetoed
    /// it; the first veto is the answer.  For an outgoing request the
    /// matching continue or drop instruction is queued.
    pub fn on_connection_request(
        &mut self,
        outgoing: bool,
        conn_uuid: u64,
        verdicts: Vec<Option<ConnectionRejectReason>>,
    ) -> (r: Result<(), ConnectionRejectReason>)
        ensures
            final(self).node_id == old(self).node_id,
            final(self).services == old(self).services,
            final(self).pending_outgoing == old(self).pending_outgoing,
            match first_reject(verdicts@) {
                None => r is Ok,
                Some(reason) => r == Err::<(), ConnectionRejectReason>(reason),
            },
            outgoing ==> final(self).actions@ == old(self).actions@.push(
                if r is Ok {
                    PlaneInternalAction::ContinuePendingOutgoingConnection(conn_uuid)
                } else {
                    PlaneInternalAction::DropPendingOutgoingConnection(conn_uuid)
                },
            ),
            !outgoing ==> final(self).actions@ == old(self).actions@,
    {
        let mut verdicts = verdicts;
        let ghost v0 = verdicts@;
        let mut decision: Result<(), ConnectionRejectReason> = Ok(());
        while verdicts.len() > 0
            invariant
                decision is Ok ==> first_reject(v0) == first_reject(verdicts@),
                decision matches Err(e) ==> first_reject(v0) == Some(e),
            ensures
                (match first_reject(v0) {
                    None => decision is Ok,
                    Some(e) => decision == Err::<(), ConnectionRejectReason>(e),
                }),
            decreases verdicts@.len(),
        {
            let ghost cur = verdicts@;
            let v = verdicts.remove(0);
            proof {
                assert(verdicts@ =~= cur.drop_first());
            }
            match v {
                Some(reason) => {
                    if decision.is_ok() {
                        decision = Err(reason);
                    } else {
                    }
                },
                None => {},
            }
            if decision.is_err() {
                break ;
            }
        }
        if outgoing {
            match &decision {
                Ok(_) => {
                    self.actions.push_back(
                        PlaneInternalAction::ContinuePendingOutgoingConnection(conn_uuid),
                    );
                },
                Err(_) => {
                    self.actions.push_back(
                        PlaneInternalAction::DropPendingOutgoingConnection(conn_uuid),
                    );
                },
            }
        }
        decision
    }

    /// Record a pending outgoing connection towards `node`.
    pub fn record_pending_outgoing(&mut self, conn_uuid: u64, node: u32)
        ensures
            final(self).node_id == old(self).node_id,
            final(self).services == old(self).services,
            final(self).actions@ == old(self).actions@,
            final(self).pending_outgoing@ == old(self).pending_outgoing@.push((conn_uuid, node)),
    {
        self.pending_outgoing.push((conn_uuid, node));
    }

    /// An established connection: queue the spawn of its driver task,
    /// with the mask of behaviors that opted in with a handler.
    pub fn on_connection_established(
        &mut self,
        outgoing: bool,
        node: u32,
        conn: ConnId,
        handlers: Vec<bool>,
    )
        ensures
            final(self).node_id == old(self).node_id,
            final(self).services == old(self).services,
            final(self).pending_outgoing == old(self).pending_outgoing,
            final(self).actions@ == old(self).actions@.push(
                PlaneInternalAction::SpawnConnection { outgoing, node, conn, handlers },
            ),
    {
        self.actions.push_back(
            PlaneInternalAction::SpawnConnection { outgoing, node, conn, handlers },
        );
    }

    /// Queue one behavior's freshly drained actions, tagged with its
    /// service, in exactly the order the behavior produced them.
    pub fn on_behavior_actions(&mut self, service_id: u8, acts: Vec<NetworkBehaviorAction<HE, SE>>)
        ensures
            final(self).node_id == old(self).node_id,
            final(self).services == old(self).services,
            final(self).pending_outgoing == old(self).pending_outgoing,
            final(self).actions@.len() == old(self).actions@.len() + acts@.len(),
            final(self).actions@.subrange(0, old(self).actions@.len() as int) == old(self).actions@,
            forall|k: int|
                0 <= k < acts@.len() ==> final(self).actions@[old(self).actions@.len() + k]
                    == PlaneInternalAction::BehaviorAction(service_id, #[trigger] acts@[k]),
    {
        let mut acts = acts;
        let ghost a0 = acts@;
        let total = acts.len();
        proof {
            assert(a0.len() == total);
        }
        let ghost base = self.actions@;
        let mut k: usize = 0;
        while acts.len() > 0
            invariant
                k + acts@.len() == a0.len(),
                a0.len() <= usize::MAX,
                acts@ == a0.skip(k as int),
                self.actions@.len() == base.len() + k,
                self.actions@.subrange(0, base.len() as int) == base,
                self.node_id == old(self).node_id,
                self.services == old(self).services,
                self.pending_outgoing == old(self).pending_outgoing,
                forall|m: int|
                    0 <= m < k ==> self.actions@[base.len() + m]
                        == PlaneInternalAction::BehaviorAction(service_id, #[trigger] a0[m]),
            decreases acts@.len(),
        {
            let ghost cur = acts@;
            let a = acts.remove(0);
            proof {
                assert(acts@ =~= cur.drop_first());
                assert(acts@ =~= a0.skip(k + 1));
                assert(a == a0[k as int]);
            }
            self.actions.push_back(PlaneInternalAction::BehaviorAction(service_id, a));
            proof {
                assert(self.actions@.subrange(0, base.len() as int) =~= base);
            }
            k += 1;
        }
        proof {
            assert(base =~= old(self).actions@);
        }
    }

    /// Route one internal event: a wake-up, handler event or local
    /// message names the behavior to call; a disconnect is announced
    /// to the behaviors and forgets any pending attempt for that
    /// connection; a new outgoing attempt is recorded and calls
    /// nobody.
    pub fn on_internal_event<BE>(&mut self, event: NetworkPlaneInternalEvent<BE>) -> (r: InternalDispatch<BE>)
        ensures
            final(self).node_id == old(self).node_id,
            final(self).services == old(self).services,
            final(self).actions@ == old(self).actions@,
            event matches NetworkPlaneInternalEvent::AwakeBehaviour { service_id } ==> r
                == InternalDispatch::<BE>::Awake(service_id) && final(self).pending_outgoing == old(self).pending_outgoing,
            event matches NetworkPlaneInternalEvent::ToBehaviourFromHandler {
                service_id,
                node_id,
                conn_id,
                event: e,
            } ==> r == InternalDispatch::<BE>::HandlerEvent(service_id, node_id, conn_id, e) && final(self).pending_outgoing == old(self).pending_outgoing,
            event matches NetworkPlaneInternalEvent::ToBehaviourLocalMsg { service_id, msg } ==> r
                == InternalDispatch::<BE>::LocalMsg(service_id, msg) && final(self).pending_outgoing
                == old(self).pending_outgoing,
            event matches NetworkPlaneInternalEvent::IncomingDisconnected(node, conn) ==> r
                == (InternalDispatch::Disconnected::<BE> { outgoing: false, node, conn }) && final(self).pending_outgoing@ == old(self).pending_outgoing@.filter(
                (|p: (u64, u32)| p.0 != conn.uuid),
            ),
            event matches NetworkPlaneInternalEvent::OutgoingDisconnected(node, conn) ==> r
                == (InternalDispatch::Disconnected::<BE> { outgoing: true, node, conn }) && final(self).pending_outgoing@ == old(self).pending_outgoing@.filter(
                (|p: (u64, u32)| p.0 != conn.uuid),
            ),
            event matches NetworkPlaneInternalEvent::OutgoingRequest(node, conn) ==> r
                == InternalDispatch::Recorded::<BE> && final(self).pending_outgoing@ == old(self).pending_outgoing@.push((conn.uuid, node)),
    {
        match event {
            NetworkPlaneInternalEvent::AwakeBehaviour { service_id } => {
                InternalDispatch::Awake(service_id)
            },
            NetworkPlaneInternalEvent::ToBehaviourFromHandler {
                service_id,
                node_id,
                conn_id,
                event,
            } => InternalDispatch::HandlerEvent(service_id, node_id, conn_id, event),
            NetworkPlaneInternalEvent::ToBehaviourLocalMsg { service_id, msg } => {
                InternalDispatch::LocalMsg(service_id, msg)
            },
            NetworkPlaneInternalEvent::IncomingDisconnected(node, conn) => {
                self.forget_pending(conn.uuid());
                InternalDispatch::Disconnected { outgoing: false, node, conn }
            },
            NetworkPlaneInternalEvent::OutgoingDisconnected(node, conn) => {
                self.forget_pending(conn.uuid());
                InternalDispatch::Disconnected { outgoing: true, node, conn }
            },
            NetworkPlaneInternalEvent::OutgoingRequest(node, conn) => {
                self.pending_outgoing.push((conn.uuid(), node));
                InternalDispatch::Recorded
            },
        }
    }

    /// Drop every pending outgoing attempt with this identifier.
    fn forget_pending(&mut self, uuid: u64)
        ensures
            final(self).node_id == old(self).node_id,
            final(self).services == old(self).services,
            final(self).actions@ == old(self).actions@,
            final(self).pending_outgoing@ == old(self).pending_outgoing@.filter(
                |p: (u64, u32)| p.0 != uuid,
            ),
    {
        let ghost orig = self.pending_outgoing@;
        let mut kept: Vec<(u64, u32)> = Vec::new();
        let mut i: usize = 0;
        while i < self.pending_outgoing.len()
            invariant
                i <= self.pending_outgoing@.len(),
                self.pending_outgoing@ == orig,
                kept@ == orig.take(i as int).filter(|p: (u64, u32)| p.0 != uuid),
                self.node_id == old(self).node_id,
                self.services == old(self).services,
                self.actions@ == old(self).actions@,
            decreases self.pending_outgoing@.len() - i,
        {
            proof {
                assert(orig.take(i + 1).drop_last() =~= orig.take(i as int));
                assert(orig.take(i + 1).last() == orig[i as int]);
            }
            if self.pending_outgoing[i].0 != uuid {
                let entry = (self.pending_outgoing[i].0, self.pending_outgoing[i].1);
                kept.push(entry);
            }
            proof {
                reveal_with_fuel(Seq::filter, 2);
                let f = |p: (u64, u32)| p.0 != uuid;
                assert(orig.take(i + 1).filter(f) == (if f(orig[i as int]) {
                    orig.take(i as int).filter(f).push(orig[i as int])
                } else {
                    orig.take(i as int).filter(f)
                }));
                assert(kept@ =~= orig.take(i + 1).filter(f));
            }
            i += 1;
        }
        proof {
            assert(orig.take(orig.len() as int) =~= orig);
        }
        self.pending_outgoing = kept;
    }

    /// Hand the oldest queued action to the outer driver.
    pub fn pop_action(&mut self) -> (r: Option<PlaneInternalAction<HE, SE>>)
        ensures
            final(self).node_id == old(self).node_id,
            final(self).services == old(self).services,
            final(self).pending_outgoing == old(self).pending_outgoing,
            old(self).actions@.len() == 0 ==> r is None && final(self).actions@ == old(self).actions@,
            old(self).actions@.len() > 0 ==> r == Some(old(self).actions@[0]) && final(self).actions@ == old(self).actions@.drop_first(),
    {
        self.actions.pop_front()
    }
}

/// Actions reach the outer world in production order: when one
/// behavior's drained actions are queued, each lands behind the
/// queue's earlier contents, at the offset it was produced at, so
/// draining the queue front-first replays them in that exact order.
pub proof fn lemma_behavior_action_order<HE, SE>(
    pre: Seq<PlaneInternalAction<HE, SE>>,
    post: Seq<PlaneInternalAction<HE, SE>>,
    service_id: u8,
    acts: Seq<NetworkBehaviorAction<HE, SE>>,
    i: int,
    j: int,
)
    requires
        post.len() == pre.len() + acts.len(),
        post.subrange(0, pre.len() as int) == pre,
        forall|k: int|
            0 <= k < acts.len() ==> post[pre.len() + k] == PlaneInternalAction::BehaviorAction(
                service_id,
                #[trigger] acts[k],
            ),
        0 <= i < j < acts.len(),
    ensures
        post[pre.len() + i] == PlaneInternalAction::BehaviorAction(service_id, acts[i]),
        post[pre.len() + j] == PlaneInternalAction::BehaviorAction(service_id, acts[j]),
        pre.len() + i < pre.len() + j,
{
}

} // verus!
