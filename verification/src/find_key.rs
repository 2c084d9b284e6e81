//! One in-flight key lookup of the discovery service.
//!
//! A `FindKeyRequest` tracks the nodes asked about a key, ordered by
//! xor distance to the key, each with the state of its contact:
//! waiting to be connected, connecting, connected, asked, answered,
//! or failed.  Only the closest `K_BUCKET` nodes decide the request's
//! status; a node with no progress for longer than the timeout counts
//! as failed.

use vstd::prelude::*;

use crate::identity::NodeAddr;

verus! {

/// How many closest nodes decide a request's status.
pub const K_BUCKET: usize = 4;

/// The contact state of one node of a lookup.
#[derive(Debug, Clone, Copy, PartialEq, Eq, Structural)]
pub enum NodeState {
    Waiting { at: u64 },
    Connecting { at: u64 },
    Connected { at: u64 },
    Requesting { at: u64 },
    ReceivedAnswer { at: u64 },
    ConnectError { at: u64 },
}

/// The overall status of a lookup at one instant.
#[derive(Debug, Clone, Copy, PartialEq, Eq, Structural)]
pub enum FindKeyRequestStatus {
    /// Some node can still answer in time.
    Requesting,
    /// Nobody answered and nobody can any more.
    Timeout,
    /// At least one node answered and none is still awaited.
    Finished,
}

impl FindKeyRequestStatus {
    /// Whether the status is `Timeout`.
    pub fn is_timeout(&self) -> (r: bool)
        ensures
            r == (self is Timeout),
    {
        matches!(self, FindKeyRequestStatus::Timeout)
    }
}

/// The xor distance between a node and a key.
pub open spec fn dist(node_id: u32, key: u32) -> u32 {
    node_id ^ key
}

/// A node that has not answered is still awaited while its last
/// progress is younger than the timeout.
pub open spec fn node_waiting(st: NodeState, ts: u64, timeout: u64) -> bool {
    match st {
        NodeState::Waiting { at } => at + timeout > ts,
        NodeState::Connecting { at } => at + timeout > ts,
        NodeState::Connected { at } => at + timeout > ts,
        NodeState::Requesting { at } => at + timeout > ts,
        NodeState::ReceivedAnswer { at } => false,
        NodeState::ConnectError { at } => false,
    }
}

/// A node has answered.
pub open spec fn node_finished(st: NodeState) -> bool {
    st is ReceivedAnswer
}

/// A node has failed: its connection broke, or it ran out of time.
pub open spec fn node_error(st: NodeState, ts: u64, timeout: u64) -> bool {
    match st {
        NodeState::Waiting { at } => at + timeout <= ts,
        NodeState::Connecting { at } => at + timeout <= ts,
        NodeState::Connected { at } => at + timeout <= ts,
        NodeState::Requesting { at } => at + timeout <= ts,
        NodeState::ReceivedAnswer { at } => false,
        NodeState::ConnectError { at } => true,
    }
}

/// How many nodes of `s` are still awaited.
pub open spec fn count_waiting(s: Seq<(NodeAddr, NodeState)>, ts: u64, timeout: u64) -> nat
    decreases s.len(),
{
    if s.len() == 0 {
        0
    } else {
        count_waiting(s.drop_last(), ts, timeout) + (if node_waiting(s.last().1, ts, timeout) {
            1nat
        } else {
            0nat
        })
    }
}

/// How many nodes of `s` have answered.
pub open spec fn count_finished(s: Seq<(NodeAddr, NodeState)>) -> nat
    decreases s.len(),
{
    if s.len() == 0 {
        0
    } else {
        count_finished(s.drop_last()) + (if node_finished(s.last().1) {
            1nat
        } else {
            0nat
        })
    }
}

/// How many nodes of `s` have failed.
pub open spec fn count_error(s: Seq<(NodeAddr, NodeState)>, ts: u64, timeout: u64) -> nat
    decreases s.len(),
{
    if s.len() == 0 {
        0
    } else {
        count_error(s.drop_last(), ts, timeout) + (if node_error(s.last().1, ts, timeout) {
            1nat
        } else {
            0nat
        })
    }
}

/// The status decided by the closest `K_BUCKET` nodes: finished when
/// none is awaited and one answered, timed out when none is awaited
/// and none answered but some failed, still requesting otherwise.
pub open spec fn status_spec(
    nodes: Seq<(NodeAddr, NodeState)>,
    ts: u64,
    timeout: u64,
) -> FindKeyRequestStatus {
    let pre = nodes.take(if nodes.len() <= K_BUCKET {
        nodes.len() as int
    } else {
        K_BUCKET as int
    });
    if count_waiting(pre, ts, timeout) == 0 && count_finished(pre) > 0 {
        FindKeyRequestStatus::Finished
    } else if count_waiting(pre, ts, timeout) == 0 && count_finished(pre) == 0 && count_error(
        pre,
        ts,
        timeout,
    ) > 0 {
        FindKeyRequestStatus::Timeout
    } else {
        FindKeyRequestStatus::Requesting
    }
}

/// A node identifier occurs in a node list.
pub open spec fn has_node(s: Seq<(NodeAddr, NodeState)>, node_id: u32) -> bool {
    exists|i: int| 0 <= i < s.len() && (#[trigger] s[i]).0.node_id == node_id
}

/// The node list is ordered by xor distance to `key`, with pairwise
/// distinct node identifiers.
pub open spec fn nodes_wf(s: Seq<(NodeAddr, NodeState)>, key: u32) -> bool {
    &&& forall|i: int, j: int|
        0 <= i < j < s.len() ==> dist((#[trigger] s[i]).0.node_id, key) <= dist(
            (#[trigger] s[j]).0.node_id,
            key,
        )
    &&& forall|i: int, j: int|
        0 <= i < j < s.len() ==> (#[trigger] s[i]).0.node_id != (#[trigger] s[j]).0.node_id
}

/// `entry` placed before the first node of `s` strictly farther from
/// `key`, after any node at the same distance.
pub open spec fn sorted_insert(
    s: Seq<(NodeAddr, NodeState)>,
    entry: (NodeAddr, NodeState),
    key: u32,
) -> Seq<(NodeAddr, NodeState)>
    decreases s.len(),
{
    if s.len() == 0 {
        seq![entry]
    } else if dist(s[0].0.node_id, key) <= dist(entry.0.node_id, key) {
        seq![s[0]] + sorted_insert(s.drop_first(), entry, key)
    } else {
        seq![entry] + s
    }
}

/// A new node as `push_node` records it.
pub open spec fn fresh_state(ts: u64, connected: bool) -> NodeState {
    if connected {
        NodeState::Connected { at: ts }
    } else {
        NodeState::Waiting { at: ts }
    }
}

/// `nodes` after recording one answer entry: known identifiers are
/// left alone, new ones are inserted at their distance.
pub open spec fn push_if_new(
    nodes: Seq<(NodeAddr, NodeState)>,
    e: (NodeAddr, bool),
    ts: u64,
    key: u32,
) -> Seq<(NodeAddr, NodeState)> {
    if has_node(nodes, e.0.node_id) {
        nodes
    } else {
        sorted_insert(nodes, (e.0, fresh_state(ts, e.1)), key)
    }
}

/// `nodes` after recording a whole answer, entry by entry.
pub open spec fn apply_answers(
    nodes: Seq<(NodeAddr, NodeState)>,
    res: Seq<(NodeAddr, bool)>,
    ts: u64,
    key: u32,
) -> Seq<(NodeAddr, NodeState)>
    decreases res.len(),
{
    if res.len() == 0 {
        nodes
    } else {
        apply_answers(push_if_new(nodes, res[0], ts, key), res.drop_first(), ts, key)
    }
}

/// Inserting a new identifier keeps the list ordered and the
/// identifiers distinct, and only adds the new node.
proof fn lemma_sorted_insert_wf(s: Seq<(NodeAddr, NodeState)>, entry: (NodeAddr, NodeState), key: u32)
    requires
        nodes_wf(s, key),
        !has_node(s, entry.0.node_id),
    ensures
        nodes_wf(sorted_insert(s, entry, key), key),
        sorted_insert(s, entry, key).len() == s.len() + 1,
        forall|k: u32|
            has_node(sorted_insert(s, entry, key), k) <==> has_node(s, k) || k
                == entry.0.node_id,
    decreases s.len(),
{
    let r = sorted_insert(s, entry, key);
    if s.len() == 0 {
        assert forall|k: u32| has_node(r, k) implies has_node(s, k) || k == entry.0.node_id by {
            let i = choose|i: int| 0 <= i < r.len() && r[i].0.node_id == k;
        }
        assert(r[0] == entry);
        assert(has_node(r, entry.0.node_id));
    } else if dist(s[0].0.node_id, key) <= dist(entry.0.node_id, key) {
        assert(nodes_wf(s.drop_first(), key));
        assert(!has_node(s.drop_first(), entry.0.node_id)) by {
            if has_node(s.drop_first(), entry.0.node_id) {
                let i = choose|i: int|
                    0 <= i < s.drop_first().len() && s.drop_first()[i].0.node_id
                        == entry.0.node_id;
                assert(s[i + 1].0.node_id == entry.0.node_id);
            }
        }
        lemma_sorted_insert_wf(s.drop_first(), entry, key);
        let rr = sorted_insert(s.drop_first(), entry, key);
        assert(r =~= seq![s[0]] + rr);
        assert forall|i: int, j: int| 0 <= i < j < r.len() implies dist(
            (#[trigger] r[i]).0.node_id,
            key,
        ) <= dist((#[trigger] r[j]).0.node_id, key) && r[i].0.node_id != r[j].0.node_id by {
            if i == 0 {
                assert(has_node(rr, r[j].0.node_id));
                if r[j].0.node_id == s[0].0.node_id {
                    if has_node(s.drop_first(), r[j].0.node_id) {
                        let m = choose|m: int|
                            0 <= m < s.drop_first().len() && s.drop_first()[m].0.node_id
                                == r[j].0.node_id;
                        assert(s[m + 1].0.node_id == s[0].0.node_id);
                        assert(false);
                    } else {
                        assert(r[j].0.node_id == entry.0.node_id);
                        assert(dist(entry.0.node_id, key) >= dist(s[0].0.node_id, key));
                        assert(false);
                    }
                }
                if has_node(s.drop_first(), r[j].0.node_id) {
                    let m = choose|m: int|
                        0 <= m < s.drop_first().len() && s.drop_first()[m].0.node_id
                            == r[j].0.node_id;
                    assert(dist(s[0].0.node_id, key) <= dist(s[m + 1].0.node_id, key));
                } else {
                    assert(r[j].0.node_id == entry.0.node_id);
                }
            } else {
                assert(r[i] == rr[i - 1]);
                assert(r[j] == rr[j - 1]);
            }
        }
        assert forall|k: u32| has_node(r, k) implies has_node(s, k) || k == entry.0.node_id by {
            let i = choose|i: int| 0 <= i < r.len() && r[i].0.node_id == k;
            if i == 0 {
            } else {
                assert(rr[i - 1].0.node_id == k);
                assert(has_node(rr, k));
                if has_node(s.drop_first(), k) {
                    let m = choose|m: int|
                        0 <= m < s.drop_first().len() && s.drop_first()[m].0.node_id == k;
                    assert(s[m + 1].0.node_id == k);
                }
            }
        }
        assert forall|k: u32| has_node(s, k) || k == entry.0.node_id implies has_node(r, k) by {
            if has_node(s, k) {
                let i = choose|i: int| 0 <= i < s.len() && s[i].0.node_id == k;
                if i == 0 {
                    assert(r[0].0.node_id == k);
                } else {
                    assert(has_node(s.drop_first(), k)) by {
                        assert(s.drop_first()[i - 1].0.node_id == k);
                    }
                    assert(has_node(rr, k));
                    let m = choose|m: int| 0 <= m < rr.len() && rr[m].0.node_id == k;
                    assert(r[m + 1].0.node_id == k);
                }
            } else {
                assert(has_node(rr, k));
                let m = choose|m: int| 0 <= m < rr.len() && rr[m].0.node_id == k;
                assert(r[m + 1].0.node_id == k);
            }
        }
    } else {
        assert(r =~= seq![entry] + s);
        assert forall|k: u32| has_node(r, k) implies has_node(s, k) || k == entry.0.node_id by {
            let i = choose|i: int| 0 <= i < r.len() && r[i].0.node_id == k;
            if i > 0 {
                assert(s[i - 1].0.node_id == k);
            }
        }
        assert forall|k: u32| has_node(s, k) || k == entry.0.node_id implies has_node(r, k) by {
            if has_node(s, k) {
                let i = choose|i: int| 0 <= i < s.len() && s[i].0.node_id == k;
                assert(r[i + 1].0.node_id == k);
            } else {
                assert(r[0].0.node_id == k);
            }
        }
    }
}

/// Inserting before the first strictly farther node is exactly
/// `sorted_insert`.
proof fn lemma_sorted_insert_split(
    s: Seq<(NodeAddr, NodeState)>,
    entry: (NodeAddr, NodeState),
    key: u32,
    pos: int,
)
    requires
        0 <= pos <= s.len(),
        forall|j: int|
            0 <= j < pos ==> dist((#[trigger] s[j]).0.node_id, key) <= dist(entry.0.node_id, key),
        pos < s.len() ==> dist(s[pos].0.node_id, key) > dist(entry.0.node_id, key),
        forall|i: int, j: int|
            0 <= i < j < s.len() ==> dist((#[trigger] s[i]).0.node_id, key) <= dist(
                (#[trigger] s[j]).0.node_id,
                key,
            ),
    ensures
        sorted_insert(s, entry, key) == s.take(pos) + seq![entry] + s.skip(pos),
    decreases s.len(),
{
    if s.len() == 0 {
        assert(sorted_insert(s, entry, key) =~= s.take(pos) + seq![entry] + s.skip(pos));
    } else if dist(s[0].0.node_id, key) <= dist(entry.0.node_id, key) {
        assert(pos >= 1);
        let d = s.drop_first();
        assert(forall|j: int|
            0 <= j < pos - 1 ==> dist((#[trigger] d[j]).0.node_id, key) <= dist(
                entry.0.node_id,
                key,
            ));
        assert(forall|i: int, j: int|
            0 <= i < j < d.len() ==> dist((#[trigger] d[i]).0.node_id, key) <= dist(
                (#[trigger] d[j]).0.node_id,
                key,
            ));
        lemma_sorted_insert_split(d, entry, key, pos - 1);
        assert(sorted_insert(s, entry, key) =~= s.take(pos) + seq![entry] + s.skip(pos));
    } else {
        assert(pos == 0);
        assert(sorted_insert(s, entry, key) =~= s.take(pos) + seq![entry] + s.skip(pos));
    }
}

/// The position before the first node strictly farther from the key
/// than `dist_new`.
fn insert_pos(nodes: &Vec<(NodeAddr, NodeState)>, key: u32, dist_new: u32) -> (pos: usize)
    ensures
        pos <= nodes@.len(),
        forall|j: int| 0 <= j < pos ==> dist((#[trigger] nodes@[j]).0.node_id, key) <= dist_new,
        pos < nodes@.len() ==> dist(nodes@[pos as int].0.node_id, key) > dist_new,
{
    let mut pos: usize = 0;
    while pos < nodes.len()
        invariant
            pos <= nodes@.len(),
            forall|j: int| 0 <= j < pos ==> dist((#[trigger] nodes@[j]).0.node_id, key) <= dist_new,
        decreases nodes@.len() - pos,
    {
        if (nodes[pos].0.node_id ^ key) > dist_new {
            return pos;
        }
        pos += 1;
    }
    pos
}

/// Two node lists with the same identifiers in the same positions are
/// ordered and duplicate-free together.
proof fn lemma_same_ids_wf(a: Seq<(NodeAddr, NodeState)>, b: Seq<(NodeAddr, NodeState)>, key: u32)
    requires
        nodes_wf(a, key),
        b.len() == a.len(),
        forall|i: int| 0 <= i < a.len() ==> (#[trigger] b[i]).0.node_id == a[i].0.node_id,
    ensures
        nodes_wf(b, key),
{
    assert forall|i: int, j: int| 0 <= i < j < b.len() implies dist(
        (#[trigger] b[i]).0.node_id,
        key,
    ) <= dist((#[trigger] b[j]).0.node_id, key) && b[i].0.node_id != b[j].0.node_id by {
        assert(a[i].0.node_id != a[j].0.node_id);
        assert(dist(a[i].0.node_id, key) <= dist(a[j].0.node_id, key));
    }
}

/// The first node still being asked that has `from_node`'s
/// identifier, if any.
fn first_requesting(nodes: &Vec<(NodeAddr, NodeState)>, from_node: u32) -> (r: Option<usize>)
    ensures
        match r {
            Some(i) => i < nodes@.len() && nodes@[i as int].1 is Requesting
                && nodes@[i as int].0.node_id == from_node && (forall|j: int|
                0 <= j < i ==> !((#[trigger] nodes@[j]).1 is Requesting
                    && nodes@[j].0.node_id == from_node)),
            None => forall|i: int|
                0 <= i < nodes@.len() ==> !((#[trigger] nodes@[i]).1 is Requesting
                    && nodes@[i].0.node_id == from_node),
        },
{
    let mut i: usize = 0;
    while i < nodes.len()
        invariant
            i <= nodes@.len(),
            forall|j: int|
                0 <= j < i ==> !((#[trigger] nodes@[j]).1 is Requesting
                    && nodes@[j].0.node_id == from_node),
        decreases nodes@.len() - i,
    {
        let hit = matches!(&nodes[i].1, NodeState::Requesting { .. });
        if hit && nodes[i].0.node_id == from_node {
            return Some(i);
        }
        i += 1;
    }
    None
}

/// One in-flight lookup.
pub struct FindKeyRequest {
    pub req_id: u32,
    pub key: u32,
    pub timeout: u64,
    pub nodes: Vec<(NodeAddr, NodeState)>,
}

impl FindKeyRequest {
    /// The node list is ordered and duplicate-free.
    pub open spec fn wf(self) -> bool {
        nodes_wf(self.nodes@, self.key)
    }

    /// A fresh lookup for `key` with no nodes yet.
    pub fn new(req_id: u32, key: u32, timeout: u64) -> (r: Self)
        ensures
            r.wf(),
            r.req_id == req_id,
            r.key == key,
            r.timeout == timeout,
            r.nodes@ == Seq::<(NodeAddr, NodeState)>::empty(),
    {
        FindKeyRequest { req_id, key, timeout, nodes: Vec::new() }
    }

    /// The request identifier of this lookup.
    pub fn req_id(&self) -> (r: u32)
        ensures
            r == self.req_id,
    {
        self.req_id
    }

    /// The key being looked up.
    pub fn key(&self) -> (r: u32)
        ensures
            r == self.key,
    {
        self.key
    }

    /// The status at `ts`, decided by the closest `K_BUCKET` nodes.
    pub fn status(&self, ts: u64) -> (r: FindKeyRequestStatus)
        ensures
            r == status_spec(self.nodes@, ts, self.timeout),
    {
        let loop_len = if self.nodes.len() <= K_BUCKET {
            self.nodes.len()
        } else {
            K_BUCKET
        };
        let mut waiting_count: usize = 0;
        let mut error_count: usize = 0;
        let mut finished_count: usize = 0;
        let mut i: usize = 0;
        while i < loop_len
            invariant
                i <= loop_len,
                loop_len <= self.nodes@.len(),
                loop_len == if self.nodes@.len() <= K_BUCKET {
                    self.nodes@.len() as int
                } else {
                    K_BUCKET as int
                },
                waiting_count == count_waiting(self.nodes@.take(i as int), ts, self.timeout),
                finished_count == count_finished(self.nodes@.take(i as int)),
                error_count == count_error(self.nodes@.take(i as int), ts, self.timeout),
                waiting_count <= i && finished_count <= i && error_count <= i,
            decreases loop_len - i,
        {
            proof {
                assert(self.nodes@.take(i + 1).drop_last() =~= self.nodes@.take(i as int));
                assert(self.nodes@.take(i + 1).last() == self.nodes@[i as int]);
            }
            let awaited = match &self.nodes[i].1 {
                NodeState::Waiting { at } => ts < *at || ts - *at < self.timeout,
                NodeState::Connecting { at } => ts < *at || ts - *at < self.timeout,
                NodeState::Connected { at } => ts < *at || ts - *at < self.timeout,
                NodeState::Requesting { at } => ts < *at || ts - *at < self.timeout,
                NodeState::ReceivedAnswer { at: _ } => false,
                NodeState::ConnectError { at: _ } => false,
            };
            if awaited {
                waiting_count += 1;
            } else {
                match &self.nodes[i].1 {
                    NodeState::ReceivedAnswer { at: _ } => {
                        finished_count += 1;
                    },
                    _ => {
                        error_count += 1;
                    },
                }
            }
            i += 1;
        }
        if waiting_count == 0 && finished_count > 0 {
            FindKeyRequestStatus::Finished
        } else if waiting_count == 0 && finished_count == 0 && error_count > 0 {
            FindKeyRequestStatus::Timeout
        } else {
            FindKeyRequestStatus::Requesting
        }
    }

    /// Whether the lookup is over at `ts`, by answer or by timeout.
    pub fn is_ended(&self, ts: u64) -> (r: bool)
        ensures
            r == !(status_spec(self.nodes@, ts, self.timeout) is Requesting),
    {
        match self.status(ts) {
            FindKeyRequestStatus::Requesting => false,
            FindKeyRequestStatus::Timeout => true,
            FindKeyRequestStatus::Finished => true,
        }
    }

    /// Record one node for the lookup: a known identifier is left
    /// alone, a new one is inserted at its xor distance, connected or
    /// waiting as reported.
    pub fn push_node(&mut self, ts: u64, addr: NodeAddr, connected: bool)
        requires
            old(self).wf(),
        ensures
            final(self).wf(),
            final(self).req_id == old(self).req_id,
            final(self).key == old(self).key,
            final(self).timeout == old(self).timeout,
            has_node(old(self).nodes@, addr.node_id) ==> final(self).nodes@ == old(self).nodes@,
            !has_node(old(self).nodes@, addr.node_id) ==> final(self).nodes@ == sorted_insert(
                old(self).nodes@,
                (addr, fresh_state(ts, connected)),
                old(self).key,
            ),
    {
        let mut i: usize = 0;
        while i < self.nodes.len()
            invariant
                i <= self.nodes@.len(),
                forall|j: int| 0 <= j < i ==> (#[trigger] self.nodes@[j]).0.node_id != addr.node_id,
                self.nodes@ == old(self).nodes@,
                old(self).wf(),
                self.req_id == old(self).req_id,
                self.key == old(self).key,
                self.timeout == old(self).timeout,
            decreases self.nodes@.len() - i,
        {
            if self.nodes[i].0.node_id() == addr.node_id {
                return ;
            }
            i += 1;
        }
        let state = if connected {
            NodeState::Connected { at: ts }
        } else {
            NodeState::Waiting { at: ts }
        };
        let key = self.key;
        let dist_new = addr.node_id ^ key;
        let pos = insert_pos(&self.nodes, key, dist_new);
        proof {
            lemma_sorted_insert_wf(
                self.nodes@,
                (addr, fresh_state(ts, connected)),
                self.key,
            );
        }
        let ghost entry = (addr, state);
        let ghost before = self.nodes@;
        self.nodes.insert(pos, (addr, state));
        proof {
            lemma_sorted_insert_split(before, entry, self.key, pos as int);
            assert(self.nodes@ =~= before.take(pos as int) + seq![entry] + before.skip(pos as int));
        }
    }

    /// Hand out the closest node still waiting for a connection, if
    /// any, marking it connecting at `ts`.
    pub fn pop_connect(&mut self, ts: u64) -> (r: Option<NodeAddr>)
        requires
            old(self).wf(),
        ensures
            final(self).wf(),
            final(self).req_id == old(self).req_id,
            final(self).key == old(self).key,
            final(self).timeout == old(self).timeout,
            (forall|i: int|
                0 <= i < old(self).nodes@.len() ==> !((#[trigger] old(self).nodes@[i]).1
                    is Waiting)) ==> r is None && final(self).nodes@ == old(self).nodes@,
            forall|i: int|
                (0 <= i < old(self).nodes@.len() && (#[trigger] old(self).nodes@[i]).1 is Waiting
                    && (forall|j: int|
                    0 <= j < i ==> !((#[trigger] old(self).nodes@[j]).1 is Waiting))) ==> {
                    &&& r matches Some(a) && a.node_id == old(self).nodes@[i].0.node_id
                        && a.parts@ == old(self).nodes@[i].0.parts@
                    &&& final(self).nodes@ == old(self).nodes@.update(
                        i,
                        (old(self).nodes@[i].0, NodeState::Connecting { at: ts }),
                    )
                },
    {
        let mut i: usize = 0;
        while i < self.nodes.len()
            invariant
                i <= self.nodes@.len(),
                forall|j: int| 0 <= j < i ==> !((#[trigger] self.nodes@[j]).1 is Waiting),
                self.nodes@ == old(self).nodes@,
                old(self).wf(),
                self.req_id == old(self).req_id,
                self.key == old(self).key,
                self.timeout == old(self).timeout,
            decreases self.nodes@.len() - i,
        {
            let hit = matches!(&self.nodes[i].1, NodeState::Waiting { .. });
            if hit {
                let mut pair = self.nodes.remove(i);
                pair.1 = NodeState::Connecting { at: ts };
                let out = NodeAddr { node_id: pair.0.node_id, parts: pair.0.parts.clone() };
                proof {
                    assert(out.parts@ =~= pair.0.parts@);
                }
                let ghost gp = pair;
                self.nodes.insert(i, pair);
                proof {
                    assert(self.nodes@ =~= old(self).nodes@.update(i as int, gp));
                    assert(forall|m: int|
                        0 <= m < self.nodes@.len() ==> (#[trigger] self.nodes@[m]).0.node_id == old(self).nodes@[m].0.node_id);
                    lemma_same_ids_wf(old(self).nodes@, self.nodes@, self.key);
                }
                return Some(out);
            }
            i += 1;
        }
        None
    }

    /// Hand out the closest connected node, if any, marking it asked
    /// at `ts` and returning its identifier.
    pub fn pop_request(&mut self, ts: u64) -> (r: Option<u32>)
        requires
            old(self).wf(),
        ensures
            final(self).wf(),
            final(self).req_id == old(self).req_id,
            final(self).key == old(self).key,
            final(self).timeout == old(self).timeout,
            (forall|i: int|
                0 <= i < old(self).nodes@.len() ==> !((#[trigger] old(self).nodes@[i]).1
                    is Connected)) ==> r is None && final(self).nodes@ == old(self).nodes@,
            forall|i: int|
                (0 <= i < old(self).nodes@.len() && (#[trigger] old(self).nodes@[i]).1 is Connected
                    && (forall|j: int|
                    0 <= j < i ==> !((#[trigger] old(self).nodes@[j]).1 is Connected))) ==> {
                    &&& r == Some(old(self).nodes@[i].0.node_id)
                    &&& final(self).nodes@ == old(self).nodes@.update(
                        i,
                        (old(self).nodes@[i].0, NodeState::Requesting { at: ts }),
                    )
                },
    {
        let mut i: usize = 0;
        while i < self.nodes.len()
            invariant
                i <= self.nodes@.len(),
                forall|j: int| 0 <= j < i ==> !((#[trigger] self.nodes@[j]).1 is Connected),
                self.nodes@ == old(self).nodes@,
                old(self).wf(),
                self.req_id == old(self).req_id,
                self.key == old(self).key,
                self.timeout == old(self).timeout,
            decreases self.nodes@.len() - i,
        {
            let hit = matches!(&self.nodes[i].1, NodeState::Connected { .. });
            if hit {
                let mut pair = self.nodes.remove(i);
                pair.1 = NodeState::Requesting { at: ts };
                let out = pair.0.node_id;
                let ghost gp = pair;
                self.nodes.insert(i, pair);
                proof {
                    assert(self.nodes@ =~= old(self).nodes@.update(i as int, gp));
                    assert(forall|m: int|
                        0 <= m < self.nodes@.len() ==> (#[trigger] self.nodes@[m]).0.node_id == old(self).nodes@[m].0.node_id);
                    lemma_same_ids_wf(old(self).nodes@, self.nodes@, self.key);
                }
                return Some(out);
            }
            i += 1;
        }
        None
    }

    /// Record that `from_node` connected: the first connecting entry
    /// with that identifier becomes connected at `ts`.
    pub fn on_connected_node(&mut self, ts: u64, from_node: u32) -> (r: bool)
        requires
            old(self).wf(),
        ensures
            final(self).wf(),
            final(self).req_id == old(self).req_id,
            final(self).key == old(self).key,
            final(self).timeout == old(self).timeout,
            (forall|i: int|
                0 <= i < old(self).nodes@.len() ==> !((#[trigger] old(self).nodes@[i]).1
                    is Connecting && old(self).nodes@[i].0.node_id == from_node)) ==> !r && final(self).nodes@ == old(self).nodes@,
            forall|i: int|
                (0 <= i < old(self).nodes@.len() && (#[trigger] old(self).nodes@[i]).1
                    is Connecting && old(self).nodes@[i].0.node_id == from_node && (forall|j: int|
                    0 <= j < i ==> !((#[trigger] old(self).nodes@[j]).1 is Connecting && old(self).nodes@[j].0.node_id == from_node))) ==> {
                    &&& r
                    &&& final(self).nodes@ == old(self).nodes@.update(
                        i,
                        (old(self).nodes@[i].0, NodeState::Connected { at: ts }),
                    )
                },
    {
        let mut i: usize = 0;
        while i < self.nodes.len()
            invariant
                i <= self.nodes@.len(),
                forall|j: int|
                    0 <= j < i ==> !((#[trigger] self.nodes@[j]).1 is Connecting
                        && self.nodes@[j].0.node_id == from_node),
                self.nodes@ == old(self).nodes@,
                old(self).wf(),
                self.req_id == old(self).req_id,
                self.key == old(self).key,
                self.timeout == old(self).timeout,
            decreases self.nodes@.len() - i,
        {
            let hit = matches!(&self.nodes[i].1, NodeState::Connecting { .. });
            if hit && self.nodes[i].0.node_id() == from_node {
                let mut pair = self.nodes.remove(i);
                pair.1 = NodeState::Connected { at: ts };
                let ghost gp = pair;
                self.nodes.insert(i, pair);
                proof {
                    assert(self.nodes@ =~= old(self).nodes@.update(i as int, gp));
                    assert(forall|m: int|
                        0 <= m < self.nodes@.len() ==> (#[trigger] self.nodes@[m]).0.node_id == old(self).nodes@[m].0.node_id);
                    lemma_same_ids_wf(old(self).nodes@, self.nodes@, self.key);
                }
                return true;
            }
            i += 1;
        }
        false
    }

    /// Record that connecting to `from_node` failed: the first
    /// connecting entry with that identifier is marked failed at `ts`.
    pub fn on_connect_error_node(&mut self, ts: u64, from_node: u32) -> (r: bool)
        requires
            old(self).wf(),
        ensures
            final(self).wf(),
            final(self).req_id == old(self).req_id,
            final(self).key == old(self).key,
            final(self).timeout == old(self).timeout,
            (forall|i: int|
                0 <= i < old(self).nodes@.len() ==> !((#[trigger] old(self).nodes@[i]).1
                    is Connecting && old(self).nodes@[i].0.node_id == from_node)) ==> !r && final(self).nodes@ == old(self).nodes@,
            forall|i: int|
                (0 <= i < old(self).nodes@.len() && (#[trigger] old(self).nodes@[i]).1
                    is Connecting && old(self).nodes@[i].0.node_id == from_node && (forall|j: int|
                    0 <= j < i ==> !((#[trigger] old(self).nodes@[j]).1 is Connecting && old(self).nodes@[j].0.node_id == from_node))) ==> {
                    &&& r
                    &&& final(self).nodes@ == old(self).nodes@.update(
                        i,
                        (old(self).nodes@[i].0, NodeState::ConnectError { at: ts }),
                    )
                },
    {
        let mut i: usize = 0;
        while i < self.nodes.len()
            invariant
                i <= self.nodes@.len(),
                forall|j: int|
                    0 <= j < i ==> !((#[trigger] self.nodes@[j]).1 is Connecting
                        && self.nodes@[j].0.node_id == from_node),
                self.nodes@ == old(self).nodes@,
                old(self).wf(),
                self.req_id == old(self).req_id,
                self.key == old(self).key,
                self.timeout == old(self).timeout,
            decreases self.nodes@.len() - i,
        {
            let hit = matches!(&self.nodes[i].1, NodeState::Connecting { .. });
            if hit && self.nodes[i].0.node_id() == from_node {
                let mut pair = self.nodes.remove(i);
                pair.1 = NodeState::ConnectError { at: ts };
                let ghost gp = pair;
                self.nodes.insert(i, pair);
                proof {
                    assert(self.nodes@ =~= old(self).nodes@.update(i as int, gp));
                    assert(forall|m: int|
                        0 <= m < self.nodes@.len() ==> (#[trigger] self.nodes@[m]).0.node_id == old(self).nodes@[m].0.node_id);
                    lemma_same_ids_wf(old(self).nodes@, self.nodes@, self.key);
                }
                return true;
            }
            i += 1;
        }
        false
    }

    /// Record an answer from `from_node`: the first asked entry with
    /// that identifier is marked answered at `ts`, and every node of
    /// the answer is recorded as `push_node` does.
    pub fn on_answered_node(&mut self, ts: u64, from_node: u32, res: Vec<(NodeAddr, bool)>) -> (r:
        bool)
        requires
            old(self).wf(),
        ensures
            final(self).wf(),
            final(self).req_id == old(self).req_id,
            final(self).key == old(self).key,
            final(self).timeout == old(self).timeout,
            (forall|i: int|
                0 <= i < old(self).nodes@.len() ==> !((#[trigger] old(self).nodes@[i]).1
                    is Requesting && old(self).nodes@[i].0.node_id == from_node)) ==> !r && final(self).nodes@ == old(self).nodes@,
            forall|i: int|
                (0 <= i < old(self).nodes@.len() && (#[trigger] old(self).nodes@[i]).1
                    is Requesting && old(self).nodes@[i].0.node_id == from_node && (forall|j: int|
                    0 <= j < i ==> !((#[trigger] old(self).nodes@[j]).1 is Requesting && old(self).nodes@[j].0.node_id == from_node))) ==> {
                    &&& r
                    &&& final(self).nodes@ == apply_answers(
                        old(self).nodes@.update(
                            i,
                            (old(self).nodes@[i].0, NodeState::ReceivedAnswer { at: ts }),
                        ),
                        res@,
                        ts,
                        old(self).key,
                    )
                },
    {
        let ghost res_init = res@;
        let mut queue = res;
        match first_requesting(&self.nodes, from_node) {
            Some(i) => {
                let mut pair = self.nodes.remove(i);
                pair.1 = NodeState::ReceivedAnswer { at: ts };
                let ghost gp = pair;
                self.nodes.insert(i, pair);
                proof {
                    assert(self.nodes@ =~= old(self).nodes@.update(i as int, gp));
                    assert(forall|m: int|
                        0 <= m < self.nodes@.len() ==> (#[trigger] self.nodes@[m]).0.node_id == old(self).nodes@[m].0.node_id);
                    lemma_same_ids_wf(old(self).nodes@, self.nodes@, self.key);
                }
                let ghost marked = self.nodes@;
                while queue.len() > 0
                    invariant
                        self.wf(),
                        self.req_id == old(self).req_id,
                        self.key == old(self).key,
                        self.timeout == old(self).timeout,
                        apply_answers(self.nodes@, queue@, ts, self.key) == apply_answers(
                            marked,
                            res_init,
                            ts,
                            self.key,
                        ),
                    decreases queue@.len(),
                {
                    let ghost cur = self.nodes@;
                    let ghost rcur = queue@;
                    let e = queue.remove(0);
                    proof {
                        assert(queue@ =~= rcur.drop_first());
                        assert(e == rcur[0]);
                    }
                    self.push_node(ts, e.0, e.1);
                    proof {
                        assert(self.nodes@ == push_if_new(cur, rcur[0], ts, self.key));
                    }
                }
                proof {
                    assert(apply_answers(self.nodes@, queue@, ts, self.key) == self.nodes@);
                    assert(self.nodes@ == apply_answers(marked, res_init, ts, self.key));
                    assert(marked == old(self).nodes@.update(
                        i as int,
                        (old(self).nodes@[i as int].0, NodeState::ReceivedAnswer { at: ts }),
                    ));
                    assert forall|ii: int|
                        (0 <= ii < old(self).nodes@.len() && (#[trigger] old(self).nodes@[ii]).1
                            is Requesting && old(self).nodes@[ii].0.node_id == from_node && (
                        forall|j: int|
                            0 <= j < ii ==> !((#[trigger] old(self).nodes@[j]).1 is Requesting
                                && old(self).nodes@[j].0.node_id
                                == from_node))) implies self.nodes@ == apply_answers(
                        old(self).nodes@.update(
                            ii,
                            (old(self).nodes@[ii].0, NodeState::ReceivedAnswer { at: ts }),
                        ),
                        res_init,
                        ts,
                        old(self).key,
                    ) by {
                        if ii > i as int {
                            assert(!(old(self).nodes@[i as int].1 is Requesting && old(self).nodes@[i as int].0.node_id == from_node));
                        }
                        assert(ii == i as int);
                    }
                }
                true
            },
            None => false,
        }
    }
}

} // verus!
