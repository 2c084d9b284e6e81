//! The key-value SDK: the queue between callers and the key-value
//! behavior.
//!
//! Every call becomes one `KeyValueSdkEvent` in a queue the behavior
//! drains on its next wake-up, and every call rings the wake counter.
//! The SDK also keeps the registry of local subscribers, so that a
//! change or an answered `get` coming back from the behavior is
//! dispatched to the right caller; the channels that carry the data
//! live outside.

use vstd::prelude::*;

use crate::storage::{distinct_keys, has_key, KeyId, KeySource, KeyVersion, KeyValueSdkEventError, ReqId, SimpleKeyValueGetError, ValueType};
use std::collections::VecDeque;

verus! {

/// Identifier of a sub-key of a hashmap-style key.
pub type SubKeyId = u64;

/// One queued SDK call, as the behavior drains it.
#[derive(Debug, PartialEq, Eq)]
#[verifier::ext_equal]
pub enum KeyValueSdkEvent {
    SetKey(KeyId, ValueType, Option<u64>),
    Get(ReqId, KeyId, u64),
    Del(KeyId),
    Sub(u64, KeyId, Option<u64>),
    Unsub(u64, KeyId),
    SetH(KeyId, SubKeyId, ValueType, Option<u64>),
    GetH(ReqId, KeyId, u64),
    DelH(KeyId, SubKeyId),
    SubH(u64, KeyId, Option<u64>),
    UnsubH(u64, KeyId),
    OnKeyChanged(u64, KeyId, Option<ValueType>, KeyVersion, KeySource),
    OnKeyHChanged(u64, KeyId, SubKeyId, Option<ValueType>, KeyVersion, KeySource),
    OnGet(
        ReqId,
        KeyId,
        Result<Option<(ValueType, KeyVersion, KeySource)>, KeyValueSdkEventError>,
    ),
    OnGetH(
        ReqId,
        KeyId,
        Result<Option<Vec<(SubKeyId, ValueType, KeyVersion, KeySource)>>, KeyValueSdkEventError>,
    ),
}

/// The error a `get` caller sees for each way its answer can fail.
pub fn map_get_error(e: KeyValueSdkEventError) -> (r: SimpleKeyValueGetError)
    ensures
        e is NetworkError ==> r is NetworkError,
        e is Timeout ==> r is Timeout,
        e is InternalError ==> r is InternalError,
{
    match e {
        KeyValueSdkEventError::NetworkError => SimpleKeyValueGetError::NetworkError,
        KeyValueSdkEventError::Timeout => SimpleKeyValueGetError::Timeout,
        KeyValueSdkEventError::InternalError => SimpleKeyValueGetError::InternalError,
    }
}

/// The registry of one family of subscriptions: for each key, the
/// subscriber identifiers in the order they joined.
pub struct PublisherManager {
    pub uuid_gen: u64,
    pub subscribers: Vec<(u64, Vec<u64>)>,
}

/// The index of `key` in the registry, if present.
fn registry_index(v: &Vec<(u64, Vec<u64>)>, key: u64) -> (r: Option<usize>)
    ensures
        match r {
            Some(i) => i < v@.len() && v@[i as int].0 == key,
            None => !has_key(v@, key),
        },
{
    let mut i: usize = 0;
    while i < v.len()
        invariant
            i <= v@.len(),
            forall|j: int| 0 <= j < i ==> (#[trigger] v@[j]).0 != key,
        decreases v@.len() - i,
    {
        if v[i].0 == key {
            return Some(i);
        }
        i += 1;
    }
    None
}

/// The index of `uuid` in a subscriber list, if present.
fn uuid_index(v: &Vec<u64>, uuid: u64) -> (r: Option<usize>)
    ensures
        match r {
            Some(i) => i < v@.len() && v@[i as int] == uuid && (forall|j: int|
                0 <= j < i ==> (#[trigger] v@[j]) != uuid),
            None => !v@.contains(uuid),
        },
{
    let mut i: usize = 0;
    while i < v.len()
        invariant
            i <= v@.len(),
            forall|j: int| 0 <= j < i ==> (#[trigger] v@[j]) != uuid,
        decreases v@.len() - i,
    {
        if v[i] == uuid {
            return Some(i);
        }
        i += 1;
    }
    None
}

/// The registry after one subscriber joins a key: a known key gains
/// the subscriber at the end of its list unless it is already there,
/// a new key is appended holding the subscriber alone, and every
/// other entry stays in place.
pub open spec fn sub_effect(
    pre: Seq<(u64, Vec<u64>)>,
    post: Seq<(u64, Vec<u64>)>,
    key: u64,
    uuid: u64,
) -> bool {
    &&& post.len() == if has_key(pre, key) {
        pre.len()
    } else {
        pre.len() + 1
    }
    &&& (forall|j: int| 0 <= j < pre.len() && pre[j].0 != key ==> #[trigger] post[j] == pre[j])
    &&& (forall|j: int| 0 <= j < pre.len() ==> (#[trigger] post[j]).0 == pre[j].0)
    &&& (forall|j: int|
        0 <= j < pre.len() && (#[trigger] pre[j]).0 == key ==> post[j].1@ == if pre[j].1@.contains(
            uuid,
        ) {
            pre[j].1@
        } else {
            pre[j].1@.push(uuid)
        })
    &&& (!has_key(pre, key) ==> post.last().0 == key && post.last().1@ == seq![uuid])
}

/// The registry after one subscriber leaves a key: an unknown key
/// changes nothing, a key whose last subscriber leaves is dropped,
/// and otherwise only that subscriber's entry disappears.
pub open spec fn unsub_effect(
    pre: Seq<(u64, Vec<u64>)>,
    post: Seq<(u64, Vec<u64>)>,
    key: u64,
    uuid: u64,
) -> bool {
    &&& (!has_key(pre, key) ==> post == pre)
    &&& (forall|j: int|
        0 <= j < pre.len() && (#[trigger] pre[j]).0 == key ==> {
            let os = pre[j].1@;
            let remaining = if os.contains(uuid) {
                os.remove_value(uuid)
            } else {
                os
            };
            &&& (remaining.len() == 0 ==> post == pre.remove(j))
            &&& (remaining.len() > 0 ==> {
                &&& post.len() == pre.len()
                &&& post[j].0 == key
                &&& post[j].1@ == remaining
                &&& (forall|m: int|
                    0 <= m < pre.len() && m != j ==> #[trigger] post[m] == pre[m])
            })
        })
}

/// Whether one leave empties its key: the key is held and loses its
/// last subscriber.
pub open spec fn unsub_empties(pre: Seq<(u64, Vec<u64>)>, key: u64, uuid: u64) -> bool {
    exists|j: int|
        0 <= j < pre.len() && (#[trigger] pre[j]).0 == key && (if pre[j].1@.contains(uuid) {
            pre[j].1@.remove_value(uuid)
        } else {
            pre[j].1@
        }).len() == 0
}

impl PublisherManager {
    /// Keys are distinct and no subscriber is listed twice under one
    /// key.
    pub open spec fn wf(self) -> bool {
        &&& distinct_keys(self.subscribers@)
        &&& forall|i: int, a: int, b: int|
            0 <= i < self.subscribers@.len() && 0 <= a < b < self.subscribers@[i].1@.len()
                ==> (#[trigger] self.subscribers@[i].1@[a]) != (
            #[trigger] self.subscribers@[i].1@[b])
    }

    /// An empty registry.
    pub fn new() -> (r: Self)
        ensures
            r.wf(),
            r.uuid_gen == 0,
            r.subscribers@ == Seq::<(u64, Vec<u64>)>::empty(),
    {
        PublisherManager { uuid_gen: 0, subscribers: Vec::new() }
    }

    /// Register `uuid` under `key` with an identifier chosen by the
    /// caller; a subscriber already present is left where it is.
    pub fn sub_raw(&mut self, key: u64, uuid: u64)
        requires
            old(self).wf(),
        ensures
            final(self).wf(),
            final(self).uuid_gen == old(self).uuid_gen,
            sub_effect(old(self).subscribers@, final(self).subscribers@, key, uuid),
    {
        match registry_index(&self.subscribers, key) {
            Some(i) => {
                let mut pair = self.subscribers.remove(i);
                if uuid_index(&pair.1, uuid).is_none() {
                    pair.1.push(uuid);
                }
                let ghost gp = pair;
                self.subscribers.insert(i, pair);
                proof {
                    assert(self.subscribers@ =~= old(self).subscribers@.update(i as int, gp));
                    assert forall|j: int|
                        0 <= j < old(self).subscribers@.len() && (old(self).subscribers@[j]).0
                            == key implies j == i as int by {
                        assert(old(self).subscribers@[i as int].0 == key);
                    }
                }
            },
            None => {
                let mut subs: Vec<u64> = Vec::new();
                subs.push(uuid);
                self.subscribers.push((key, subs));
            },
        }
    }

    /// Remove `uuid` from `key`; a key left with no subscriber is
    /// dropped from the registry.  The answer says whether the key
    /// now has no subscribers left at all.
    pub fn unsub_raw(&mut self, key: u64, uuid: u64) -> (emptied: bool)
        requires
            old(self).wf(),
        ensures
            final(self).wf(),
            final(self).uuid_gen == old(self).uuid_gen,
            unsub_effect(old(self).subscribers@, final(self).subscribers@, key, uuid),
            emptied == unsub_empties(old(self).subscribers@, key, uuid),
    {
        match registry_index(&self.subscribers, key) {
            Some(i) => {
                let mut pair = self.subscribers.remove(i);
                let ghost os = pair.1@;
                match uuid_index(&pair.1, uuid) {
                    Some(h) => {
                        pair.1.remove(h);
                        proof {
                            os.index_of_first_ensures(uuid);
                            let fi = os.index_of_first(uuid)->Some_0;
                            assert(os[fi] == uuid);
                            assert(fi == h as int);
                        }
                    },
                    None => {},
                }
                proof {
                    assert forall|j: int|
                        0 <= j < old(self).subscribers@.len() && (old(self).subscribers@[j]).0
                            == key implies j == i as int by {
                        assert(old(self).subscribers@[i as int].0 == key);
                    }
                }
                if pair.1.len() == 0 {
                    true
                } else {
                    let ghost gp = pair;
                    self.subscribers.insert(i, pair);
                    proof {
                        assert(self.subscribers@ =~= old(self).subscribers@.update(i as int, gp));
                    }
                    false
                }
            },
            None => false,
        }
    }

    /// Register a fresh subscriber under `key` and hand out its
    /// minted identifier.
    pub fn subscribe(&mut self, key: u64) -> (uuid: u64)
        requires
            old(self).wf(),
        ensures
            final(self).wf(),
            uuid == old(self).uuid_gen,
            final(self).uuid_gen == old(self).uuid_gen.wrapping_add(1),
            sub_effect(old(self).subscribers@, final(self).subscribers@, key, uuid),
    {
        let uuid = self.uuid_gen;
        self.uuid_gen = self.uuid_gen.wrapping_add(1);
        self.sub_raw(key, uuid);
        uuid
    }

    /// The subscribers a publication on `key` reaches, in join order:
    /// one exact subscriber when `uuid` names one, else every
    /// subscriber of the key.
    pub fn publish_targets(&self, uuid: Option<u64>, key: u64) -> (r: Vec<u64>)
        requires
            self.wf(),
        ensures
            !has_key(self.subscribers@, key) ==> r@ == Seq::<u64>::empty(),
            forall|j: int|
                0 <= j < self.subscribers@.len() && (#[trigger] self.subscribers@[j]).0 == key
                    ==> r@ == match uuid {
                    Some(u) => if self.subscribers@[j].1@.contains(u) {
                        seq![u]
                    } else {
                        Seq::<u64>::empty()
                    },
                    None => self.subscribers@[j].1@,
                },
    {
        match registry_index(&self.subscribers, key) {
            Some(i) => {
                proof {
                    assert forall|j: int|
                        0 <= j < self.subscribers@.len() && (self.subscribers@[j]).0
                            == key implies j == i as int by {
                        assert(self.subscribers@[i as int].0 == key);
                    }
                }
                match uuid {
                    Some(u) => {
                        if uuid_index(&self.subscribers[i].1, u).is_some() {
                            let mut out: Vec<u64> = Vec::new();
                            out.push(u);
                            proof {
                                assert(out@ =~= seq![u]);
                            }
                            out
                        } else {
                            Vec::new()
                        }
                    },
                    None => {
                        let mut out: Vec<u64> = Vec::new();
                        let mut h: usize = 0;
                        let ghost subs = self.subscribers@[i as int].1@;
                        while h < self.subscribers[i].1.len()
                            invariant
                                i < self.subscribers@.len(),
                                h <= subs.len(),
                                subs == self.subscribers@[i as int].1@,
                                out@ == subs.take(h as int),
                            decreases subs.len() - h,
                        {
                            out.push(self.subscribers[i].1[h]);
                            proof {
                                assert(out@ =~= subs.take(h + 1));
                            }
                            h += 1;
                        }
                        proof {
                            assert(subs.take(subs.len() as int) =~= subs);
                        }
                        out
                    },
                }
            },
            None => Vec::new(),
        }
    }
}

/// The pure state of the key-value SDK: minted identifiers, the wake
/// counter, the call queue, the two subscriber registries, and the
/// pending gets awaiting their answers.
pub struct KeyValueSdk {
    pub req_id_gen: u64,
    pub uuid_gen: u64,
    pub awake_count: u64,
    pub actions: VecDeque<KeyValueSdkEvent>,
    pub simple_publisher: PublisherManager,
    pub hashmap_publisher: PublisherManager,
    pub simple_get_queue: Vec<u64>,
    pub hashmap_get_queue: Vec<u64>,
}

impl KeyValueSdk {
    /// Both registries are consistent.
    pub open spec fn wf(self) -> bool {
        &&& self.simple_publisher.wf()
        &&& self.hashmap_publisher.wf()
    }

    /// A fresh SDK handle with nothing queued.
    pub fn new() -> (r: Self)
        ensures
            r.wf(),
            r.req_id_gen == 0,
            r.uuid_gen == 0,
            r.awake_count == 0,
            r.actions@ == Seq::<KeyValueSdkEvent>::empty(),
            r.simple_get_queue@ == Seq::<u64>::empty(),
            r.hashmap_get_queue@ == Seq::<u64>::empty(),
            r.simple_publisher.subscribers@ == Seq::<(u64, Vec<u64>)>::empty(),
            r.hashmap_publisher.subscribers@ == Seq::<(u64, Vec<u64>)>::empty(),
            r.simple_publisher.uuid_gen == 0,
            r.hashmap_publisher.uuid_gen == 0,
    {
        KeyValueSdk {
            req_id_gen: 0,
            uuid_gen: 0,
            awake_count: 0,
            actions: VecDeque::new(),
            simple_publisher: PublisherManager::new(),
            hashmap_publisher: PublisherManager::new(),
            simple_get_queue: Vec::new(),
            hashmap_get_queue: Vec::new(),
        }
    }

    /// Queue a write and ring the behavior.
    pub fn set(&mut self, key: KeyId, value: ValueType, ex: Option<u64>)
        requires
            old(self).wf(),
        ensures
            final(self).wf(),
            final(self).actions@ == old(self).actions@.push(
                KeyValueSdkEvent::SetKey(key, value, ex),
            ),
            final(self).awake_count == old(self).awake_count.wrapping_add(1),
            final(self).req_id_gen == old(self).req_id_gen,
            final(self).uuid_gen == old(self).uuid_gen,
            final(self).simple_publisher == old(self).simple_publisher,
            final(self).hashmap_publisher == old(self).hashmap_publisher,
            final(self).simple_get_queue == old(self).simple_get_queue,
            final(self).hashmap_get_queue == old(self).hashmap_get_queue,
    {
        self.actions.push_back(KeyValueSdkEvent::SetKey(key, value, ex));
        self.awake_count = self.awake_count.wrapping_add(1);
    }

    /// Queue a read with its timeout, remember it, ring the behavior,
    /// and hand back the request identifier the answer will carry.
    pub fn get(&mut self, key: KeyId, timeout_ms: u64) -> (req_id: u64)
        requires
            old(self).wf(),
        ensures
            final(self).wf(),
            req_id == old(self).req_id_gen,
            final(self).req_id_gen == old(self).req_id_gen.wrapping_add(1),
            final(self).actions@ == old(self).actions@.push(
                KeyValueSdkEvent::Get(old(self).req_id_gen, key, timeout_ms),
            ),
            final(self).simple_get_queue@ == old(self).simple_get_queue@.push(
                old(self).req_id_gen,
            ),
            final(self).awake_count == old(self).awake_count.wrapping_add(1),
            final(self).uuid_gen == old(self).uuid_gen,
            final(self).simple_publisher == old(self).simple_publisher,
            final(self).hashmap_publisher == old(self).hashmap_publisher,
            final(self).hashmap_get_queue == old(self).hashmap_get_queue,
    {
        let req_id = self.req_id_gen;
        self.req_id_gen = self.req_id_gen.wrapping_add(1);
        self.actions.push_back(KeyValueSdkEvent::Get(req_id, key, timeout_ms));
        self.simple_get_queue.push(req_id);
        self.awake_count = self.awake_count.wrapping_add(1);
        req_id
    }

    /// Queue a delete and ring the behavior.
    pub fn del(&mut self, key: KeyId)
        requires
            old(self).wf(),
        ensures
            final(self).wf(),
            final(self).actions@ == old(self).actions@.push(KeyValueSdkEvent::Del(key)),
            final(self).awake_count == old(self).awake_count.wrapping_add(1),
            final(self).req_id_gen == old(self).req_id_gen,
            final(self).uuid_gen == old(self).uuid_gen,
            final(self).simple_publisher == old(self).simple_publisher,
            final(self).hashmap_publisher == old(self).hashmap_publisher,
            final(self).simple_get_queue == old(self).simple_get_queue,
            final(self).hashmap_get_queue == old(self).hashmap_get_queue,
    {
        self.actions.push_back(KeyValueSdkEvent::Del(key));
        self.awake_count = self.awake_count.wrapping_add(1);
    }

    /// Join the subscribers of `key`, queue the subscription and ring
    /// the behavior; the subscriber identifier, minted from the
    /// handle's shared counter, is handed back and now registered
    /// under the key.
    pub fn subscribe(&mut self, key: KeyId, ex: Option<u64>) -> (uuid: u64)
        requires
            old(self).wf(),
        ensures
            final(self).wf(),
            uuid == old(self).uuid_gen,
            final(self).uuid_gen == old(self).uuid_gen.wrapping_add(1),
            sub_effect(
                old(self).simple_publisher.subscribers@,
                final(self).simple_publisher.subscribers@,
                key,
                uuid,
            ),
            final(self).simple_publisher.uuid_gen == old(self).simple_publisher.uuid_gen,
            final(self).hashmap_publisher == old(self).hashmap_publisher,
            final(self).simple_get_queue == old(self).simple_get_queue,
            final(self).hashmap_get_queue == old(self).hashmap_get_queue,
            final(self).req_id_gen == old(self).req_id_gen,
            final(self).actions@ == old(self).actions@.push(
                KeyValueSdkEvent::Sub(uuid, key, ex),
            ),
            final(self).awake_count == old(self).awake_count.wrapping_add(1),
    {
        let uuid = self.uuid_gen;
        self.uuid_gen = self.uuid_gen.wrapping_add(1);
        self.simple_publisher.sub_raw(key, uuid);
        self.actions.push_back(KeyValueSdkEvent::Sub(uuid, key, ex));
        self.awake_count = self.awake_count.wrapping_add(1);
        uuid
    }

    /// Leave the subscribers of `key`, queue the un-subscription and
    /// ring the behavior; the subscriber is gone from the registry,
    /// and a key left with nobody is dropped from it.
    pub fn unsubscribe(&mut self, key: KeyId, uuid: u64)
        requires
            old(self).wf(),
        ensures
            final(self).wf(),
            unsub_effect(
                old(self).simple_publisher.subscribers@,
                final(self).simple_publisher.subscribers@,
                key,
                uuid,
            ),
            final(self).simple_publisher.uuid_gen == old(self).simple_publisher.uuid_gen,
            final(self).uuid_gen == old(self).uuid_gen,
            final(self).hashmap_publisher == old(self).hashmap_publisher,
            final(self).simple_get_queue == old(self).simple_get_queue,
            final(self).hashmap_get_queue == old(self).hashmap_get_queue,
            final(self).req_id_gen == old(self).req_id_gen,
            final(self).actions@ == old(self).actions@.push(KeyValueSdkEvent::Unsub(uuid, key)),
            final(self).awake_count == old(self).awake_count.wrapping_add(1),
    {
        self.simple_publisher.unsub_raw(key, uuid);
        self.actions.push_back(KeyValueSdkEvent::Unsub(uuid, key));
        self.awake_count = self.awake_count.wrapping_add(1);
    }

    /// Queue a write of one sub-key and ring the behavior.
    pub fn hset(&mut self, key: KeyId, sub_key: SubKeyId, value: ValueType, ex: Option<u64>)
        requires
            old(self).wf(),
        ensures
            final(self).wf(),
            final(self).actions@ == old(self).actions@.push(
                KeyValueSdkEvent::SetH(key, sub_key, value, ex),
            ),
            final(self).awake_count == old(self).awake_count.wrapping_add(1),
            final(self).req_id_gen == old(self).req_id_gen,
            final(self).uuid_gen == old(self).uuid_gen,
            final(self).simple_publisher == old(self).simple_publisher,
            final(self).hashmap_publisher == old(self).hashmap_publisher,
            final(self).simple_get_queue == old(self).simple_get_queue,
            final(self).hashmap_get_queue == old(self).hashmap_get_queue,
    {
        self.actions.push_back(KeyValueSdkEvent::SetH(key, sub_key, value, ex));
        self.awake_count = self.awake_count.wrapping_add(1);
    }

    /// Queue a read of a whole hashmap-style key.
    pub fn hget(&mut self, key: KeyId, timeout_ms: u64) -> (req_id: u64)
        requires
            old(self).wf(),
        ensures
            final(self).wf(),
            req_id == old(self).req_id_gen,
            final(self).req_id_gen == old(self).req_id_gen.wrapping_add(1),
            final(self).actions@ == old(self).actions@.push(
                KeyValueSdkEvent::GetH(old(self).req_id_gen, key, timeout_ms),
            ),
            final(self).hashmap_get_queue@ == old(self).hashmap_get_queue@.push(
                old(self).req_id_gen,
            ),
            final(self).awake_count == old(self).awake_count.wrapping_add(1),
            final(self).uuid_gen == old(self).uuid_gen,
            final(self).simple_publisher == old(self).simple_publisher,
            final(self).hashmap_publisher == old(self).hashmap_publisher,
            final(self).simple_get_queue == old(self).simple_get_queue,
    {
        let req_id = self.req_id_gen;
        self.req_id_gen = self.req_id_gen.wrapping_add(1);
        self.actions.push_back(KeyValueSdkEvent::GetH(req_id, key, timeout_ms));
        self.hashmap_get_queue.push(req_id);
        self.awake_count = self.awake_count.wrapping_add(1);
        req_id
    }

    /// Queue a delete of one sub-key and ring the behavior.
    pub fn hdel(&mut self, key: KeyId, sub_key: SubKeyId)
        requires
            old(self).wf(),
        ensures
            final(self).wf(),
            final(self).actions@ == old(self).actions@.push(
                KeyValueSdkEvent::DelH(key, sub_key),
            ),
            final(self).awake_count == old(self).awake_count.wrapping_add(1),
            final(self).req_id_gen == old(self).req_id_gen,
            final(self).uuid_gen == old(self).uuid_gen,
            final(self).simple_publisher == old(self).simple_publisher,
            final(self).hashmap_publisher == old(self).hashmap_publisher,
            final(self).simple_get_queue == old(self).simple_get_queue,
            final(self).hashmap_get_queue == old(self).hashmap_get_queue,
    {
        self.actions.push_back(KeyValueSdkEvent::DelH(key, sub_key));
        self.awake_count = self.awake_count.wrapping_add(1);
    }

    /// Join the hashmap-style subscribers of `key`; the identifier
    /// comes from the same shared counter as the plain subscriptions.
    pub fn hsubscribe(&mut self, key: KeyId, ex: Option<u64>) -> (uuid: u64)
        requires
            old(self).wf(),
        ensures
            final(self).wf(),
            uuid == old(self).uuid_gen,
            final(self).uuid_gen == old(self).uuid_gen.wrapping_add(1),
            sub_effect(
                old(self).hashmap_publisher.subscribers@,
                final(self).hashmap_publisher.subscribers@,
                key,
                uuid,
            ),
            final(self).hashmap_publisher.uuid_gen == old(self).hashmap_publisher.uuid_gen,
            final(self).simple_publisher == old(self).simple_publisher,
            final(self).simple_get_queue == old(self).simple_get_queue,
            final(self).hashmap_get_queue == old(self).hashmap_get_queue,
            final(self).req_id_gen == old(self).req_id_gen,
            final(self).actions@ == old(self).actions@.push(
                KeyValueSdkEvent::SubH(uuid, key, ex),
            ),
            final(self).awake_count == old(self).awake_count.wrapping_add(1),
    {
        let uuid = self.uuid_gen;
        self.uuid_gen = self.uuid_gen.wrapping_add(1);
        self.hashmap_publisher.sub_raw(key, uuid);
        self.actions.push_back(KeyValueSdkEvent::SubH(uuid, key, ex));
        self.awake_count = self.awake_count.wrapping_add(1);
        uuid
    }

    /// Join the hashmap-style subscribers of `key` under an
    /// identifier the caller owns; it is registered under the key.
    pub fn hsubscribe_raw(&mut self, key: u64, uuid: u64, ex: Option<u64>)
        requires
            old(self).wf(),
        ensures
            final(self).wf(),
            sub_effect(
                old(self).hashmap_publisher.subscribers@,
                final(self).hashmap_publisher.subscribers@,
                key,
                uuid,
            ),
            final(self).hashmap_publisher.uuid_gen == old(self).hashmap_publisher.uuid_gen,
            final(self).uuid_gen == old(self).uuid_gen,
            final(self).simple_publisher == old(self).simple_publisher,
            final(self).simple_get_queue == old(self).simple_get_queue,
            final(self).hashmap_get_queue == old(self).hashmap_get_queue,
            final(self).req_id_gen == old(self).req_id_gen,
            final(self).actions@ == old(self).actions@.push(
                KeyValueSdkEvent::SubH(uuid, key, ex),
            ),
            final(self).awake_count == old(self).awake_count.wrapping_add(1),
    {
        self.hashmap_publisher.sub_raw(key, uuid);
        self.actions.push_back(KeyValueSdkEvent::SubH(uuid, key, ex));
        self.awake_count = self.awake_count.wrapping_add(1);
    }

    /// Leave the hashmap-style subscribers of `key`; the subscriber
    /// is gone from the registry, and a key left with nobody is
    /// dropped from it.
    pub fn hunsubscribe_raw(&mut self, key: u64, uuid: u64)
        requires
            old(self).wf(),
        ensures
            final(self).wf(),
            unsub_effect(
                old(self).hashmap_publisher.subscribers@,
                final(self).hashmap_publisher.subscribers@,
                key,
                uuid,
            ),
            final(self).hashmap_publisher.uuid_gen == old(self).hashmap_publisher.uuid_gen,
            final(self).uuid_gen == old(self).uuid_gen,
            final(self).simple_publisher == old(self).simple_publisher,
            final(self).simple_get_queue == old(self).simple_get_queue,
            final(self).hashmap_get_queue == old(self).hashmap_get_queue,
            final(self).req_id_gen == old(self).req_id_gen,
            final(self).actions@ == old(self).actions@.push(KeyValueSdkEvent::UnsubH(uuid, key)),
            final(self).awake_count == old(self).awake_count.wrapping_add(1),
    {
        self.hashmap_publisher.unsub_raw(key, uuid);
        self.actions.push_back(KeyValueSdkEvent::UnsubH(uuid, key));
        self.awake_count = self.awake_count.wrapping_add(1);
    }

    /// Take one event coming back from the behavior and decide who
    /// receives it: a change notification goes to the one subscriber
    /// it names, if that subscriber is still registered under the
    /// key; an answered `get` goes to its still-pending request,
    /// which is then forgotten.  The answer lists the recipients; an
    /// event of any other kind reaches nobody and changes nothing.
    pub fn on_event(&mut self, event: KeyValueSdkEvent) -> (targets: Vec<u64>)
        requires
            old(self).wf(),
        ensures
            final(self).wf(),
            final(self).actions@ == old(self).actions@,
            final(self).awake_count == old(self).awake_count,
            final(self).req_id_gen == old(self).req_id_gen,
            final(self).uuid_gen == old(self).uuid_gen,
            final(self).simple_publisher == old(self).simple_publisher,
            final(self).hashmap_publisher == old(self).hashmap_publisher,
            event matches KeyValueSdkEvent::OnKeyChanged(uuid, key, v, ver, src) ==> {
                &&& final(self).simple_get_queue == old(self).simple_get_queue
                &&& final(self).hashmap_get_queue == old(self).hashmap_get_queue
                &&& !has_key(old(self).simple_publisher.subscribers@, key) ==> targets@ == Seq::<
                    u64,
                >::empty()
                &&& forall|j: int|
                    0 <= j < old(self).simple_publisher.subscribers@.len() && (#[trigger] old(
                        self,
                    ).simple_publisher.subscribers@[j]).0 == key ==> targets@ == if old(
                        self,
                    ).simple_publisher.subscribers@[j].1@.contains(uuid) {
                        seq![uuid]
                    } else {
                        Seq::<u64>::empty()
                    }
            },
            event matches KeyValueSdkEvent::OnKeyHChanged(uuid, key, sk, v, ver, src) ==> {
                &&& final(self).simple_get_queue == old(self).simple_get_queue
                &&& final(self).hashmap_get_queue == old(self).hashmap_get_queue
                &&& !has_key(old(self).hashmap_publisher.subscribers@, key) ==> targets@ == Seq::<
                    u64,
                >::empty()
                &&& forall|j: int|
                    0 <= j < old(self).hashmap_publisher.subscribers@.len() && (#[trigger] old(
                        self,
                    ).hashmap_publisher.subscribers@[j]).0 == key ==> targets@ == if old(
                        self,
                    ).hashmap_publisher.subscribers@[j].1@.contains(uuid) {
                        seq![uuid]
                    } else {
                        Seq::<u64>::empty()
                    }
            },
            event matches KeyValueSdkEvent::OnGet(req, key, res) ==> {
                &&& final(self).hashmap_get_queue == old(self).hashmap_get_queue
                &&& if old(self).simple_get_queue@.contains(req) {
                    &&& targets@ == seq![req]
                    &&& final(self).simple_get_queue@ == old(self).simple_get_queue@.remove_value(
                        req,
                    )
                } else {
                    &&& targets@ == Seq::<u64>::empty()
                    &&& final(self).simple_get_queue@ == old(self).simple_get_queue@
                }
            },
            event matches KeyValueSdkEvent::OnGetH(req, key, res) ==> {
                &&& final(self).simple_get_queue == old(self).simple_get_queue
                &&& if old(self).hashmap_get_queue@.contains(req) {
                    &&& targets@ == seq![req]
                    &&& final(self).hashmap_get_queue@ == old(self).hashmap_get_queue@.remove_value(
                        req,
                    )
                } else {
                    &&& targets@ == Seq::<u64>::empty()
                    &&& final(self).hashmap_get_queue@ == old(self).hashmap_get_queue@
                }
            },
    {
        match event {
            KeyValueSdkEvent::OnKeyChanged(uuid, key, _v, _ver, _src) => {
                self.simple_publisher.publish_targets(Some(uuid), key)
            },
            KeyValueSdkEvent::OnKeyHChanged(uuid, key, _sk, _v, _ver, _src) => {
                self.hashmap_publisher.publish_targets(Some(uuid), key)
            },
            KeyValueSdkEvent::OnGet(req, _key, _res) => {
                match uuid_index(&self.simple_get_queue, req) {
                    Some(i) => {
                        let ghost q0 = self.simple_get_queue@;
                        self.simple_get_queue.remove(i);
                        proof {
                            q0.index_of_first_ensures(req);
                            let fi = q0.index_of_first(req)->Some_0;
                            assert(q0[fi] == req);
                            assert(0 <= fi < q0.len());
                            assert(forall|m: int| 0 <= m < i ==> q0[m] != req);
                            assert(fi >= i as int);
                            assert(fi == i as int);
                        }
                        let mut out: Vec<u64> = Vec::new();
                        out.push(req);
                        proof {
                            assert(out@ =~= seq![req]);
                        }
                        out
                    },
                    None => Vec::new(),
                }
            },
            KeyValueSdkEvent::OnGetH(req, _key, _res) => {
                match uuid_index(&self.hashmap_get_queue, req) {
                    Some(i) => {
                        let ghost q0 = self.hashmap_get_queue@;
                        self.hashmap_get_queue.remove(i);
                        proof {
                            q0.index_of_first_ensures(req);
                            let fi = q0.index_of_first(req)->Some_0;
                            assert(q0[fi] == req);
                            assert(0 <= fi < q0.len());
                            assert(forall|m: int| 0 <= m < i ==> q0[m] != req);
                            assert(fi >= i as int);
                            assert(fi == i as int);
                        }
                        let mut out: Vec<u64> = Vec::new();
                        out.push(req);
                        proof {
                            assert(out@ =~= seq![req]);
                        }
                        out
                    },
                    None => Vec::new(),
                }
            },
            _ => Vec::new(),
        }
    }

    /// Collect the wake-ups rung since the last collection.
    pub fn pop_awake_count(&mut self) -> (r: u64)
        ensures
            r == old(self).awake_count,
            final(self).awake_count == 0,
            final(self).actions@ == old(self).actions@,
            final(self).req_id_gen == old(self).req_id_gen,
            final(self).uuid_gen == old(self).uuid_gen,
            final(self).simple_publisher == old(self).simple_publisher,
            final(self).hashmap_publisher == old(self).hashmap_publisher,
            final(self).simple_get_queue == old(self).simple_get_queue,
            final(self).hashmap_get_queue == old(self).hashmap_get_queue,
            old(self).wf() ==> final(self).wf(),
    {
        let r = self.awake_count;
        self.awake_count = 0;
        r
    }

    /// Hand the behavior the oldest queued call.
    pub fn pop_action(&mut self) -> (r: Option<KeyValueSdkEvent>)
        ensures
            old(self).actions@.len() == 0 ==> r is None && final(self).actions@ == old(self).actions@,
            old(self).actions@.len() > 0 ==> r == Some(old(self).actions@[0]) && final(self).actions@ == old(self).actions@.drop_first(),
            final(self).awake_count == old(self).awake_count,
            final(self).req_id_gen == old(self).req_id_gen,
            final(self).uuid_gen == old(self).uuid_gen,
            final(self).simple_publisher == old(self).simple_publisher,
            final(self).hashmap_publisher == old(self).hashmap_publisher,
            final(self).simple_get_queue == old(self).simple_get_queue,
            final(self).hashmap_get_queue == old(self).hashmap_get_queue,
            old(self).wf() ==> final(self).wf(),
    {
        self.actions.pop_front()
    }
}

} // verus!
