//! Local replica of the simple key-value service.
//!
//! The storage keeps every key this node publishes, every key it
//! subscribes to, and every pending `get`, and drives the replication
//! protocol: a write or a subscription is announced to the network and
//! re-announced on every tick until the remote authority acknowledges
//! it; acknowledged state is re-sent every `sync_each_ms` as
//! anti-entropy, and slots that are acknowledged and empty are garbage
//! collected.  All effects are emitted as `LocalStorageAction` values
//! drained in order through `pop_action`.

use vstd::prelude::*;

use crate::router::RouteRule;
use std::collections::VecDeque;

verus! {

/// The service identifier of the key-value service.
pub const KEY_VALUE_SERVICE_ID: u8 = 4;

/// Identifier of a key.
pub type KeyId = u64;
/// Identifier of one protocol request.
pub type ReqId = u64;
/// Revision tag of a key: a 48-bit millisecond timestamp concatenated
/// with a 16-bit seed.
pub type KeyVersion = u64;
/// The node a value was published from.
pub type KeySource = u32;
/// The payload of a key.
pub type ValueType = Vec<u8>;

/// One slot of published data: the value (`None` once deleted), its
/// optional expiry, its version, when it was last synced, and whether
/// the remote authority has acknowledged it.
pub struct KeySlotData {
    pub value: Option<Vec<u8>>,
    pub ex: Option<u64>,
    pub version: KeyVersion,
    pub last_sync: u64,
    pub acked: bool,
}

/// One subscription slot: whether this node currently wants the
/// subscription (`sub`), whether that wish is acknowledged, the local
/// handlers to fan changes out to, and the last value seen.
pub struct KeySlotSubscribe {
    pub ex: Option<u64>,
    pub last_sync: u64,
    pub sub: bool,
    pub acked: bool,
    pub handlers: Vec<(u64, u8)>,
    pub value: Option<(Vec<u8>, KeyVersion, KeySource)>,
}

/// One pending `get`, waiting for its answer or its deadline.
pub struct KeySlotGetCallback {
    pub key: KeyId,
    pub timeout_after_ts: u64,
    pub uuid: u64,
    pub service_id: u8,
}

/// Why a `get` failed.
#[derive(Debug, Clone, Copy, PartialEq, Eq, Structural)]
pub enum SimpleKeyValueGetError {
    NetworkError,
    Timeout,
    InternalError,
}

/// Why an answer handed back to the caller failed.
#[derive(Debug, Clone, Copy, PartialEq, Eq, Structural)]
pub enum KeyValueSdkEventError {
    NetworkError,
    Timeout,
    InternalError,
}

/// An event sent to the remote authority of a key.
#[derive(Debug, PartialEq, Eq)]
#[verifier::ext_equal]
pub enum SimpleRemoteEvent {
    SetKey(ReqId, KeyId, ValueType, KeyVersion, Option<u64>),
    Get(ReqId, KeyId),
    Del(ReqId, KeyId, KeyVersion),
    Sub(ReqId, KeyId, Option<u64>),
    Unsub(ReqId, KeyId),
    OnKeySetAck(ReqId),
    OnKeyDelAck(ReqId),
}

/// An event received back from a remote authority.
#[derive(Debug, PartialEq, Eq)]
#[verifier::ext_equal]
pub enum SimpleLocalEvent {
    SetAck(ReqId, KeyId, KeyVersion, bool),
    GetAck(ReqId, KeyId, Option<(ValueType, KeyVersion, KeySource)>),
    DelAck(ReqId, KeyId, Option<KeyVersion>),
    SubAck(ReqId, KeyId),
    UnsubAck(ReqId, KeyId, bool),
    OnKeySet(ReqId, KeyId, ValueType, KeyVersion, KeySource),
    OnKeyDel(ReqId, KeyId, KeyVersion, KeySource),
}

/// An effect decided by the storage, carried out by its surroundings:
/// a message to the network, a change fanned out to one handler, or a
/// `get` answered.
#[derive(Debug, PartialEq, Eq)]
#[verifier::ext_equal]
pub enum LocalStorageAction {
    SendNet(SimpleRemoteEvent, RouteRule),
    LocalOnChanged(u8, u64, KeyId, Option<ValueType>, KeyVersion, KeySource),
    LocalOnGet(u8, u64, KeyId, Result<Option<(ValueType, KeyVersion, KeySource)>, KeyValueSdkEventError>),
}

/// The local replica itself.
pub struct SimpleLocalStorage {
    pub req_id_seed: u64,
    pub version_seed: u16,
    pub sync_each_ms: u64,
    pub data: Vec<(KeyId, KeySlotData)>,
    pub subscribe: Vec<(KeyId, KeySlotSubscribe)>,
    pub output_events: VecDeque<LocalStorageAction>,
    pub get_queue: Vec<(ReqId, KeySlotGetCallback)>,
}

/// The keys of an association list are pairwise distinct.
pub open spec fn distinct_keys<T>(s: Seq<(u64, T)>) -> bool {
    forall|i: int, j: int| 0 <= i < j < s.len() ==> (#[trigger] s[i]).0 != (#[trigger] s[j]).0
}

/// A key occurs in an association list.
pub open spec fn has_key<T>(s: Seq<(u64, T)>, key: u64) -> bool {
    exists|i: int| 0 <= i < s.len() && (#[trigger] s[i]).0 == key
}

/// The entries of a handler list are pairwise distinct.
pub open spec fn distinct_handlers(s: Seq<(u64, u8)>) -> bool {
    forall|i: int, j: int| 0 <= i < j < s.len() ==> s[i] != s[j]
}

/// The index of `key` in an association list, if any.
fn index_of_key<T>(v: &Vec<(u64, T)>, key: u64) -> (r: Option<usize>)
    ensures
        match r {
            Some(i) => i < v@.len() && v@[i as int].0 == key,
            None => !has_key(v@, key),
        },
{
    let mut i: usize = 0;
    while i < v.len()
        invariant
            i <= v@.len(),
            forall|j: int| 0 <= j < i ==> (#[trigger] v@[j]).0 != key,
        decreases v@.len() - i,
    {
        if v[i].0 == key {
            return Some(i);
        }
        i += 1;
    }
    None
}

/// The action that announces a write of `key` to the network.
pub open spec fn is_set_net(
    a: LocalStorageAction,
    req: ReqId,
    key: KeyId,
    val: Seq<u8>,
    version: KeyVersion,
    ex: Option<u64>,
) -> bool {
    a matches LocalStorageAction::SendNet(e, r) && r == RouteRule::ToKey(key as u32)
        && (e matches SimpleRemoteEvent::SetKey(q, k, v, ver, x)
        && q == req && k == key && v@ == val && ver == version && x == ex)
}

/// The action that announces a delete of `key` to the network.
pub open spec fn is_del_net(a: LocalStorageAction, req: ReqId, key: KeyId, version: KeyVersion) -> bool {
    a == LocalStorageAction::SendNet(
        SimpleRemoteEvent::Del(req, key, version),
        RouteRule::ToKey(key as u32),
    )
}

/// The action that asks the network for `key`.
pub open spec fn is_get_net(a: LocalStorageAction, req: ReqId, key: KeyId) -> bool {
    a == LocalStorageAction::SendNet(
        SimpleRemoteEvent::Get(req, key),
        RouteRule::ToKey(key as u32),
    )
}

/// The action that announces a subscription to `key`.
pub open spec fn is_sub_net(a: LocalStorageAction, req: ReqId, key: KeyId, ex: Option<u64>) -> bool {
    a == LocalStorageAction::SendNet(
        SimpleRemoteEvent::Sub(req, key, ex),
        RouteRule::ToKey(key as u32),
    )
}

/// The action that announces the end of a subscription to `key`.
pub open spec fn is_unsub_net(a: LocalStorageAction, req: ReqId, key: KeyId) -> bool {
    a == LocalStorageAction::SendNet(
        SimpleRemoteEvent::Unsub(req, key),
        RouteRule::ToKey(key as u32),
    )
}

/// The index of the handler `(uuid, service_id)` in a handler list.
fn index_of_handler(v: &Vec<(u64, u8)>, uuid: u64, service_id: u8) -> (r: Option<usize>)
    ensures
        match r {
            Some(i) => i < v@.len() && v@[i as int] == (uuid, service_id),
            None => !v@.contains((uuid, service_id)),
        },
{
    let mut i: usize = 0;
    while i < v.len()
        invariant
            i <= v@.len(),
            forall|j: int| 0 <= j < i ==> (#[trigger] v@[j]) != (uuid, service_id),
        decreases v@.len() - i,
    {
        if v[i].0 == uuid && v[i].1 == service_id {
            return Some(i);
        }
        i += 1;
    }
    None
}

/// The action that fans one change of `key` out to one local handler.
pub open spec fn is_changed(
    a: LocalStorageAction,
    service_id: u8,
    uuid: u64,
    key: KeyId,
    val: Option<Seq<u8>>,
    version: KeyVersion,
    source: KeySource,
) -> bool {
    a matches LocalStorageAction::LocalOnChanged(s, u, k, v, ver, src) && s == service_id
        && u == uuid && k == key && ver == version && src == source && (match (v, val) {
        (Some(x), Some(y)) => x@ == y,
        (None, None) => true,
        _ => false,
    })
}

/// A data slot as `set` leaves it: the given value, unacknowledged,
/// never synced.
pub open spec fn set_slot(s: KeySlotData, val: Seq<u8>, ex: Option<u64>, version: KeyVersion) -> bool {
    &&& s.value matches Some(v) && v@ == val
    &&& s.ex == ex
    &&& s.version == version
    &&& s.last_sync == 0
    &&& !s.acked
}

/// An acknowledged data slot is due for anti-entropy at `now`.
pub open spec fn data_due(s: KeySlotData, now: u64, sync_each_ms: u64) -> bool {
    s.acked && s.last_sync <= now && now - s.last_sync >= sync_each_ms
}

/// An acknowledged subscription slot is due for anti-entropy at `now`.
pub open spec fn sub_due(s: KeySlotSubscribe, now: u64, sync_each_ms: u64) -> bool {
    s.acked && s.last_sync <= now && now - s.last_sync >= sync_each_ms
}

/// `a` advanced by `n` request identifiers, with 64-bit wrap-around.
pub open spec fn wadd(a: u64, n: nat) -> u64
    decreases n,
{
    if n == 0 {
        a
    } else {
        wadd(a, (n - 1) as nat).wrapping_add(1)
    }
}

/// How many data slots are waiting for an acknowledgement.
pub open spec fn count_unacked_data(d: Seq<(KeyId, KeySlotData)>) -> nat
    decreases d.len(),
{
    if d.len() == 0 {
        0
    } else {
        count_unacked_data(d.drop_last()) + (if !d.last().1.acked {
            1nat
        } else {
            0nat
        })
    }
}

/// How many subscription slots are waiting for an acknowledgement.
pub open spec fn count_unacked_sub(d: Seq<(KeyId, KeySlotSubscribe)>) -> nat
    decreases d.len(),
{
    if d.len() == 0 {
        0
    } else {
        count_unacked_sub(d.drop_last()) + (if !d.last().1.acked {
            1nat
        } else {
            0nat
        })
    }
}

/// How many data slots are due for anti-entropy (each consumes a
/// request identifier, with or without a value to resend).
pub open spec fn count_due_data(d: Seq<(KeyId, KeySlotData)>, now: u64, sync: u64) -> nat
    decreases d.len(),
{
    if d.len() == 0 {
        0
    } else {
        count_due_data(d.drop_last(), now, sync) + (if data_due(d.last().1, now, sync) {
            1nat
        } else {
            0nat
        })
    }
}

/// How many due data slots still hold a value (each emits a resend).
pub open spec fn count_due_data_valued(d: Seq<(KeyId, KeySlotData)>, now: u64, sync: u64) -> nat
    decreases d.len(),
{
    if d.len() == 0 {
        0
    } else {
        count_due_data_valued(d.drop_last(), now, sync) + (if data_due(d.last().1, now, sync)
            && d.last().1.value is Some {
            1nat
        } else {
            0nat
        })
    }
}

/// How many subscription slots are due for anti-entropy.
pub open spec fn count_due_sub(d: Seq<(KeyId, KeySlotSubscribe)>, now: u64, sync: u64) -> nat
    decreases d.len(),
{
    if d.len() == 0 {
        0
    } else {
        count_due_sub(d.drop_last(), now, sync) + (if sub_due(d.last().1, now, sync) {
            1nat
        } else {
            0nat
        })
    }
}

/// How many due subscription slots are still wanted (each emits a
/// resend).
pub open spec fn count_due_sub_wanted(d: Seq<(KeyId, KeySlotSubscribe)>, now: u64, sync: u64) -> nat
    decreases d.len(),
{
    if d.len() == 0 {
        0
    } else {
        count_due_sub_wanted(d.drop_last(), now, sync) + (if sub_due(d.last().1, now, sync)
            && d.last().1.sub {
            1nat
        } else {
            0nat
        })
    }
}

/// How many pending gets are past their deadline at `now`.
pub open spec fn count_expired(g: Seq<(ReqId, KeySlotGetCallback)>, now: u64) -> nat
    decreases g.len(),
{
    if g.len() == 0 {
        0
    } else {
        count_expired(g.drop_last(), now) + (if now >= g.last().1.timeout_after_ts {
            1nat
        } else {
            0nat
        })
    }
}

/// `out` is exactly the retry announcements for the unacknowledged
/// data slots of `d`, in slot order, with request identifiers counted
/// from `seed`: a valued slot resends its write, an emptied slot its
/// delete.
pub open spec fn resend_data_matches(
    out: Seq<LocalStorageAction>,
    d: Seq<(KeyId, KeySlotData)>,
    seed: u64,
) -> bool
    decreases d.len(),
{
    if d.len() == 0 {
        out.len() == 0
    } else {
        let p = d.last();
        if !p.1.acked {
            &&& out.len() >= 1
            &&& resend_data_matches(out.drop_last(), d.drop_last(), seed)
            &&& (match p.1.value {
                Some(v) => is_set_net(
                    out.last(),
                    wadd(seed, count_unacked_data(d.drop_last())),
                    p.0,
                    v@,
                    p.1.version,
                    p.1.ex,
                ),
                None => is_del_net(
                    out.last(),
                    wadd(seed, count_unacked_data(d.drop_last())),
                    p.0,
                    p.1.version,
                ),
            })
        } else {
            resend_data_matches(out, d.drop_last(), seed)
        }
    }
}

/// `out` is exactly the retry announcements for the unacknowledged
/// subscription slots of `d`: a wanted slot resends its subscribe, an
/// unwanted one its unsubscribe.
pub open spec fn resend_sub_matches(
    out: Seq<LocalStorageAction>,
    d: Seq<(KeyId, KeySlotSubscribe)>,
    seed: u64,
) -> bool
    decreases d.len(),
{
    if d.len() == 0 {
        out.len() == 0
    } else {
        let p = d.last();
        if !p.1.acked {
            &&& out.len() >= 1
            &&& resend_sub_matches(out.drop_last(), d.drop_last(), seed)
            &&& (if p.1.sub {
                is_sub_net(out.last(), wadd(seed, count_unacked_sub(d.drop_last())), p.0, p.1.ex)
            } else {
                is_unsub_net(out.last(), wadd(seed, count_unacked_sub(d.drop_last())), p.0)
            })
        } else {
            resend_sub_matches(out, d.drop_last(), seed)
        }
    }
}

/// `out` is exactly the anti-entropy announcements for the due data
/// slots of `d`: a valued due slot resends its write; a due slot
/// without a value consumes a request identifier but emits nothing (it
/// is garbage collected instead).
pub open spec fn sync_data_matches(
    out: Seq<LocalStorageAction>,
    d: Seq<(KeyId, KeySlotData)>,
    now: u64,
    sync: u64,
    seed: u64,
) -> bool
    decreases d.len(),
{
    if d.len() == 0 {
        out.len() == 0
    } else {
        let p = d.last();
        if data_due(p.1, now, sync) {
            match p.1.value {
                Some(v) => {
                    &&& out.len() >= 1
                    &&& sync_data_matches(out.drop_last(), d.drop_last(), now, sync, seed)
                    &&& is_set_net(
                        out.last(),
                        wadd(seed, count_due_data(d.drop_last(), now, sync)),
                        p.0,
                        v@,
                        p.1.version,
                        p.1.ex,
                    )
                },
                None => sync_data_matches(out, d.drop_last(), now, sync, seed),
            }
        } else {
            sync_data_matches(out, d.drop_last(), now, sync, seed)
        }
    }
}

/// `out` is exactly the anti-entropy announcements for the due
/// subscription slots of `d`: a wanted due slot resends its subscribe;
/// an unwanted due slot consumes a request identifier but emits
/// nothing.
pub open spec fn sync_sub_matches(
    out: Seq<LocalStorageAction>,
    d: Seq<(KeyId, KeySlotSubscribe)>,
    now: u64,
    sync: u64,
    seed: u64,
) -> bool
    decreases d.len(),
{
    if d.len() == 0 {
        out.len() == 0
    } else {
        let p = d.last();
        if sub_due(p.1, now, sync) {
            if p.1.sub {
                &&& out.len() >= 1
                &&& sync_sub_matches(out.drop_last(), d.drop_last(), now, sync, seed)
                &&& is_sub_net(
                    out.last(),
                    wadd(seed, count_due_sub(d.drop_last(), now, sync)),
                    p.0,
                    p.1.ex,
                )
            } else {
                sync_sub_matches(out, d.drop_last(), now, sync, seed)
            }
        } else {
            sync_sub_matches(out, d.drop_last(), now, sync, seed)
        }
    }
}

/// `out` is exactly one timeout answer for every pending get of `g`
/// past its deadline, in queue order.
pub open spec fn timeout_matches(
    out: Seq<LocalStorageAction>,
    g: Seq<(ReqId, KeySlotGetCallback)>,
    now: u64,
) -> bool
    decreases g.len(),
{
    if g.len() == 0 {
        out.len() == 0
    } else {
        let p = g.last();
        if now >= p.1.timeout_after_ts {
            &&& out.len() >= 1
            &&& timeout_matches(out.drop_last(), g.drop_last(), now)
            &&& out.last() == LocalStorageAction::LocalOnGet(
                p.1.service_id,
                p.1.uuid,
                p.1.key,
                Err(KeyValueSdkEventError::Timeout),
            )
        } else {
            timeout_matches(out, g.drop_last(), now)
        }
    }
}

/// The data slots after one tick: a due valued slot is marked synced
/// at `now`, a due emptied slot is garbage collected, the rest stay.
pub open spec fn tick_data_state(d: Seq<(KeyId, KeySlotData)>, now: u64, sync: u64) -> Seq<
    (KeyId, KeySlotData),
>
    decreases d.len(),
{
    if d.len() == 0 {
        Seq::empty()
    } else {
        let p = d.last();
        let front = tick_data_state(d.drop_last(), now, sync);
        if data_due(p.1, now, sync) {
            match p.1.value {
                Some(v) => front + seq![
                    (
                        p.0,
                        KeySlotData {
                            value: p.1.value,
                            ex: p.1.ex,
                            version: p.1.version,
                            last_sync: now,
                            acked: p.1.acked,
                        },
                    ),
                ],
                None => front,
            }
        } else {
            front + seq![p]
        }
    }
}

/// The subscription slots after one tick: a due wanted slot is marked
/// synced at `now`, a due unwanted slot is garbage collected.
pub open spec fn tick_sub_state(d: Seq<(KeyId, KeySlotSubscribe)>, now: u64, sync: u64) -> Seq<
    (KeyId, KeySlotSubscribe),
>
    decreases d.len(),
{
    if d.len() == 0 {
        Seq::empty()
    } else {
        let p = d.last();
        let front = tick_sub_state(d.drop_last(), now, sync);
        if sub_due(p.1, now, sync) {
            if p.1.sub {
                front + seq![
                    (
                        p.0,
                        KeySlotSubscribe {
                            ex: p.1.ex,
                            last_sync: now,
                            sub: p.1.sub,
                            acked: p.1.acked,
                            handlers: p.1.handlers,
                            value: p.1.value,
                        },
                    ),
                ]
            } else {
                front
            }
        } else {
            front + seq![p]
        }
    }
}

/// The pending gets after one tick: those past their deadline are
/// answered and dropped, the rest stay.
pub open spec fn tick_get_state(g: Seq<(ReqId, KeySlotGetCallback)>, now: u64) -> Seq<
    (ReqId, KeySlotGetCallback),
>
    decreases g.len(),
{
    if g.len() == 0 {
        Seq::empty()
    } else {
        let p = g.last();
        let front = tick_get_state(g.drop_last(), now);
        if now >= p.1.timeout_after_ts {
            front
        } else {
            front + seq![p]
        }
    }
}

/// Queue a retry announcement for every unacknowledged data slot.
fn resend_data_pass(
    data: &Vec<(KeyId, KeySlotData)>,
    out: &mut VecDeque<LocalStorageAction>,
    seed: &mut u64,
)
    ensures
        final(out)@.len() == old(out)@.len() + count_unacked_data(data@),
        final(out)@.subrange(0, old(out)@.len() as int) == old(out)@,
        resend_data_matches(
            final(out)@.subrange(old(out)@.len() as int, final(out)@.len() as int),
            data@,
            *old(seed),
        ),
        *final(seed) == wadd(*old(seed), count_unacked_data(data@)),
{
    let ghost n0 = out@.len() as int;
    let ghost s0 = *seed;
    let mut i: usize = 0;
    while i < data.len()
        invariant
            i <= data@.len(),
            out@.len() == n0 + count_unacked_data(data@.take(i as int)),
            out@.subrange(0, n0) == old(out)@,
            n0 == old(out)@.len(),
            resend_data_matches(
                out@.subrange(n0, out@.len() as int),
                data@.take(i as int),
                s0,
            ),
            *seed == wadd(s0, count_unacked_data(data@.take(i as int))),
        decreases data@.len() - i,
    {
        proof {
            assert(data@.take(i + 1).drop_last() =~= data@.take(i as int));
            assert(data@.take(i + 1).last() == data@[i as int]);
        }
        if !data[i].1.acked {
            let ghost chunk = out@.subrange(n0, out@.len() as int);
            let req = *seed;
            *seed = seed.wrapping_add(1);
            let key = data[i].0;
            let version = data[i].1.version;
            let ex = data[i].1.ex;
            match &data[i].1.value {
                Some(v) => {
                    let c = v.clone();
                    proof {
                        assert(c@ =~= v@);
                    }
                    out.push_back(
                        LocalStorageAction::SendNet(
                            SimpleRemoteEvent::SetKey(req, key, c, version, ex),
                            RouteRule::ToKey(#[verifier::truncate] (key as u32)),
                        ),
                    );
                },
                None => {
                    out.push_back(
                        LocalStorageAction::SendNet(
                            SimpleRemoteEvent::Del(req, key, version),
                            RouteRule::ToKey(#[verifier::truncate] (key as u32)),
                        ),
                    );
                },
            }
            proof {
                assert(out@.subrange(0, n0) =~= old(out)@);
                assert(out@.subrange(n0, out@.len() as int) =~= chunk.push(out@.last()));
                assert(out@.subrange(n0, out@.len() as int).drop_last() =~= chunk);
                assert(resend_data_matches(
                    out@.subrange(n0, out@.len() as int),
                    data@.take(i + 1),
                    s0,
                ));
            }
        } else {
            proof {
                assert(resend_data_matches(
                    out@.subrange(n0, out@.len() as int),
                    data@.take(i + 1),
                    s0,
                ));
            }
        }
        i += 1;
    }
    proof {
        assert(data@.take(data@.len() as int) =~= data@);
    }
}

/// Queue a retry announcement for every unacknowledged subscription
/// slot.
fn resend_sub_pass(
    data: &Vec<(KeyId, KeySlotSubscribe)>,
    out: &mut VecDeque<LocalStorageAction>,
    seed: &mut u64,
)
    ensures
        final(out)@.len() == old(out)@.len() + count_unacked_sub(data@),
        final(out)@.subrange(0, old(out)@.len() as int) == old(out)@,
        resend_sub_matches(
            final(out)@.subrange(old(out)@.len() as int, final(out)@.len() as int),
            data@,
            *old(seed),
        ),
        *final(seed) == wadd(*old(seed), count_unacked_sub(data@)),
{
    let ghost n0 = out@.len() as int;
    let ghost s0 = *seed;
    let mut i: usize = 0;
    while i < data.len()
        invariant
            i <= data@.len(),
            out@.len() == n0 + count_unacked_sub(data@.take(i as int)),
            out@.subrange(0, n0) == old(out)@,
            n0 == old(out)@.len(),
            resend_sub_matches(
                out@.subrange(n0, out@.len() as int),
                data@.take(i as int),
                s0,
            ),
            *seed == wadd(s0, count_unacked_sub(data@.take(i as int))),
        decreases data@.len() - i,
    {
        proof {
            assert(data@.take(i + 1).drop_last() =~= data@.take(i as int));
            assert(data@.take(i + 1).last() == data@[i as int]);
        }
        if !data[i].1.acked {
            let ghost chunk = out@.subrange(n0, out@.len() as int);
            let req = *seed;
            *seed = seed.wrapping_add(1);
            let key = data[i].0;
            if data[i].1.sub {
                let ex = data[i].1.ex;
                out.push_back(
                    LocalStorageAction::SendNet(
                        SimpleRemoteEvent::Sub(req, key, ex),
                        RouteRule::ToKey(#[verifier::truncate] (key as u32)),
                    ),
                );
            } else {
                out.push_back(
                    LocalStorageAction::SendNet(
                        SimpleRemoteEvent::Unsub(req, key),
                        RouteRule::ToKey(#[verifier::truncate] (key as u32)),
                    ),
                );
            }
            proof {
                assert(out@.subrange(0, n0) =~= old(out)@);
                assert(out@.subrange(n0, out@.len() as int) =~= chunk.push(out@.last()));
                assert(out@.subrange(n0, out@.len() as int).drop_last() =~= chunk);
                assert(resend_sub_matches(
                    out@.subrange(n0, out@.len() as int),
                    data@.take(i + 1),
                    s0,
                ));
            }
        } else {
            proof {
                assert(resend_sub_matches(
                    out@.subrange(n0, out@.len() as int),
                    data@.take(i + 1),
                    s0,
                ));
            }
        }
        i += 1;
    }
    proof {
        assert(data@.take(data@.len() as int) =~= data@);
    }
}

/// Queue an anti-entropy announcement for every due, still valued
/// data slot; every due slot consumes a request identifier.
fn sync_data_pass(
    data: &Vec<(KeyId, KeySlotData)>,
    now: u64,
    sync: u64,
    out: &mut VecDeque<LocalStorageAction>,
    seed: &mut u64,
)
    ensures
        final(out)@.len() == old(out)@.len() + count_due_data_valued(data@, now, sync),
        final(out)@.subrange(0, old(out)@.len() as int) == old(out)@,
        sync_data_matches(
            final(out)@.subrange(old(out)@.len() as int, final(out)@.len() as int),
            data@,
            now,
            sync,
            *old(seed),
        ),
        *final(seed) == wadd(*old(seed), count_due_data(data@, now, sync)),
{
    let ghost n0 = out@.len() as int;
    let ghost s0 = *seed;
    let mut i: usize = 0;
    while i < data.len()
        invariant
            i <= data@.len(),
            out@.len() == n0 + count_due_data_valued(data@.take(i as int), now, sync),
            out@.subrange(0, n0) == old(out)@,
            n0 == old(out)@.len(),
            sync_data_matches(
                out@.subrange(n0, out@.len() as int),
                data@.take(i as int),
                now,
                sync,
                s0,
            ),
            *seed == wadd(s0, count_due_data(data@.take(i as int), now, sync)),
        decreases data@.len() - i,
    {
        proof {
            assert(data@.take(i + 1).drop_last() =~= data@.take(i as int));
            assert(data@.take(i + 1).last() == data@[i as int]);
        }
        if data[i].1.acked && now >= data[i].1.last_sync && now - data[i].1.last_sync >= sync {
            let ghost chunk = out@.subrange(n0, out@.len() as int);
            let req = *seed;
            *seed = seed.wrapping_add(1);
            let key = data[i].0;
            let version = data[i].1.version;
            let ex = data[i].1.ex;
            match &data[i].1.value {
                Some(v) => {
                    let c = v.clone();
                    proof {
                        assert(c@ =~= v@);
                    }
                    out.push_back(
                        LocalStorageAction::SendNet(
                            SimpleRemoteEvent::SetKey(req, key, c, version, ex),
                            RouteRule::ToKey(#[verifier::truncate] (key as u32)),
                        ),
                    );
                    proof {
                        assert(out@.subrange(0, n0) =~= old(out)@);
                        assert(out@.subrange(n0, out@.len() as int) =~= chunk.push(out@.last()));
                        assert(out@.subrange(n0, out@.len() as int).drop_last() =~= chunk);
                    }
                },
                None => {},
            }
        }
        proof {
            assert(sync_data_matches(
                out@.subrange(n0, out@.len() as int),
                data@.take(i + 1),
                now,
                sync,
                s0,
            ));
        }
        i += 1;
    }
    proof {
        assert(data@.take(data@.len() as int) =~= data@);
    }
}

/// Queue an anti-entropy announcement for every due, still wanted
/// subscription slot; every due slot consumes a request identifier.
fn sync_sub_pass(
    data: &Vec<(KeyId, KeySlotSubscribe)>,
    now: u64,
    sync: u64,
    out: &mut VecDeque<LocalStorageAction>,
    seed: &mut u64,
)
    ensures
        final(out)@.len() == old(out)@.len() + count_due_sub_wanted(data@, now, sync),
        final(out)@.subrange(0, old(out)@.len() as int) == old(out)@,
        sync_sub_matches(
            final(out)@.subrange(old(out)@.len() as int, final(out)@.len() as int),
            data@,
            now,
            sync,
            *old(seed),
        ),
        *final(seed) == wadd(*old(seed), count_due_sub(data@, now, sync)),
{
    let ghost n0 = out@.len() as int;
    let ghost s0 = *seed;
    let mut i: usize = 0;
    while i < data.len()
        invariant
            i <= data@.len(),
            out@.len() == n0 + count_due_sub_wanted(data@.take(i as int), now, sync),
            out@.subrange(0, n0) == old(out)@,
            n0 == old(out)@.len(),
            sync_sub_matches(
                out@.subrange(n0, out@.len() as int),
                data@.take(i as int),
                now,
                sync,
                s0,
            ),
            *seed == wadd(s0, count_due_sub(data@.take(i as int), now, sync)),
        decreases data@.len() - i,
    {
        proof {
            assert(data@.take(i + 1).drop_last() =~= data@.take(i as int));
            assert(data@.take(i + 1).last() == data@[i as int]);
        }
        if data[i].1.acked && now >= data[i].1.last_sync && now - data[i].1.last_sync >= sync {
            let ghost chunk = out@.subrange(n0, out@.len() as int);
            let req = *seed;
            *seed = seed.wrapping_add(1);
            let key = data[i].0;
            if data[i].1.sub {
                let ex = data[i].1.ex;
                out.push_back(
                    LocalStorageAction::SendNet(
                        SimpleRemoteEvent::Sub(req, key, ex),
                        RouteRule::ToKey(#[verifier::truncate] (key as u32)),
                    ),
                );
                proof {
                    assert(out@.subrange(0, n0) =~= old(out)@);
                    assert(out@.subrange(n0, out@.len() as int) =~= chunk.push(out@.last()));
                    assert(out@.subrange(n0, out@.len() as int).drop_last() =~= chunk);
                }
            }
        }
        proof {
            assert(sync_sub_matches(
                out@.subrange(n0, out@.len() as int),
                data@.take(i + 1),
                now,
                sync,
                s0,
            ));
        }
        i += 1;
    }
    proof {
        assert(data@.take(data@.len() as int) =~= data@);
    }
}

/// Queue a timeout answer for every pending get past its deadline.
fn timeout_pass(g: &Vec<(ReqId, KeySlotGetCallback)>, now: u64, out: &mut VecDeque<
    LocalStorageAction,
>)
    ensures
        final(out)@.len() == old(out)@.len() + count_expired(g@, now),
        final(out)@.subrange(0, old(out)@.len() as int) == old(out)@,
        timeout_matches(
            final(out)@.subrange(old(out)@.len() as int, final(out)@.len() as int),
            g@,
            now,
        ),
{
    let ghost n0 = out@.len() as int;
    let mut i: usize = 0;
    while i < g.len()
        invariant
            i <= g@.len(),
            out@.len() == n0 + count_expired(g@.take(i as int), now),
            out@.subrange(0, n0) == old(out)@,
            n0 == old(out)@.len(),
            timeout_matches(out@.subrange(n0, out@.len() as int), g@.take(i as int), now),
        decreases g@.len() - i,
    {
        proof {
            assert(g@.take(i + 1).drop_last() =~= g@.take(i as int));
            assert(g@.take(i + 1).last() == g@[i as int]);
        }
        if now >= g[i].1.timeout_after_ts {
            let ghost chunk = out@.subrange(n0, out@.len() as int);
            out.push_back(
                LocalStorageAction::LocalOnGet(
                    g[i].1.service_id,
                    g[i].1.uuid,
                    g[i].1.key,
                    Err(KeyValueSdkEventError::Timeout),
                ),
            );
            proof {
                assert(out@.subrange(0, n0) =~= old(out)@);
                assert(out@.subrange(n0, out@.len() as int) =~= chunk.push(out@.last()));
                assert(out@.subrange(n0, out@.len() as int).drop_last() =~= chunk);
            }
        }
        proof {
            assert(timeout_matches(out@.subrange(n0, out@.len() as int), g@.take(i + 1), now));
        }
        i += 1;
    }
    proof {
        assert(g@.take(g@.len() as int) =~= g@);
    }
}

/// Apply one tick's state changes to the data slots.
fn gc_data_pass(data: &mut Vec<(KeyId, KeySlotData)>, now: u64, sync: u64)
    ensures
        final(data)@ == tick_data_state(old(data)@, now, sync),
{
    let ghost orig = data@;
    let mut acc: Vec<(KeyId, KeySlotData)> = Vec::new();
    while data.len() > 0
        invariant
            data@ == orig.skip(orig.len() - data@.len()),
            data@.len() <= orig.len(),
            acc@ == tick_data_state(orig.take(orig.len() - data@.len()), now, sync),
        decreases data@.len(),
    {
        let ghost processed = orig.len() - data@.len();
        let p = data.remove(0);
        proof {
            assert(p == orig[processed as int]);
            assert(data@ =~= orig.skip(processed as int + 1));
            assert(orig.take(processed as int + 1).drop_last() =~= orig.take(processed as int));
            assert(orig.take(processed as int + 1).last() == orig[processed as int]);
        }
        let ghost acc0 = acc@;
        if p.1.acked && now >= p.1.last_sync && now - p.1.last_sync >= sync {
            match p.1.value {
                Some(v) => {
                    acc.push(
                        (
                            p.0,
                            KeySlotData {
                                value: Some(v),
                                ex: p.1.ex,
                                version: p.1.version,
                                last_sync: now,
                                acked: p.1.acked,
                            },
                        ),
                    );
                    proof {
                        assert(acc@ =~= tick_data_state(
                            orig.take(processed as int + 1),
                            now,
                            sync,
                        ));
                    }
                },
                None => {},
            }
        } else {
            acc.push(p);
            proof {
                assert(acc@ =~= tick_data_state(orig.take(processed as int + 1), now, sync));
            }
        }
    }
    proof {
        assert(orig.take(orig.len() as int) =~= orig);
    }
    *data = acc;
}

/// Apply one tick's state changes to the subscription slots.
fn gc_sub_pass(data: &mut Vec<(KeyId, KeySlotSubscribe)>, now: u64, sync: u64)
    ensures
        final(data)@ == tick_sub_state(old(data)@, now, sync),
{
    let ghost orig = data@;
    let mut acc: Vec<(KeyId, KeySlotSubscribe)> = Vec::new();
    while data.len() > 0
        invariant
            data@ == orig.skip(orig.len() - data@.len()),
            data@.len() <= orig.len(),
            acc@ == tick_sub_state(orig.take(orig.len() - data@.len()), now, sync),
        decreases data@.len(),
    {
        let ghost processed = orig.len() - data@.len();
        let p = data.remove(0);
        proof {
            assert(p == orig[processed as int]);
            assert(data@ =~= orig.skip(processed as int + 1));
            assert(orig.take(processed as int + 1).drop_last() =~= orig.take(processed as int));
            assert(orig.take(processed as int + 1).last() == orig[processed as int]);
        }
        if p.1.acked && now >= p.1.last_sync && now - p.1.last_sync >= sync {
            if p.1.sub {
                acc.push(
                    (
                        p.0,
                        KeySlotSubscribe {
                            ex: p.1.ex,
                            last_sync: now,
                            sub: p.1.sub,
                            acked: p.1.acked,
                            handlers: p.1.handlers,
                            value: p.1.value,
                        },
                    ),
                );
                proof {
                    assert(acc@ =~= tick_sub_state(orig.take(processed as int + 1), now, sync));
                }
            }
        } else {
            acc.push(p);
            proof {
                assert(acc@ =~= tick_sub_state(orig.take(processed as int + 1), now, sync));
            }
        }
    }
    proof {
        assert(orig.take(orig.len() as int) =~= orig);
    }
    *data = acc;
}

/// Drop every pending get past its deadline.
fn gc_get_pass(g: &mut Vec<(ReqId, KeySlotGetCallback)>, now: u64)
    ensures
        final(g)@ == tick_get_state(old(g)@, now),
{
    let ghost orig = g@;
    let mut acc: Vec<(ReqId, KeySlotGetCallback)> = Vec::new();
    while g.len() > 0
        invariant
            g@ == orig.skip(orig.len() - g@.len()),
            g@.len() <= orig.len(),
            acc@ == tick_get_state(orig.take(orig.len() - g@.len()), now),
        decreases g@.len(),
    {
        let ghost processed = orig.len() - g@.len();
        let p = g.remove(0);
        proof {
            assert(p == orig[processed as int]);
            assert(g@ =~= orig.skip(processed as int + 1));
            assert(orig.take(processed as int + 1).drop_last() =~= orig.take(processed as int));
            assert(orig.take(processed as int + 1).last() == orig[processed as int]);
        }
        if !(now >= p.1.timeout_after_ts) {
            acc.push(p);
            proof {
                assert(acc@ =~= tick_get_state(orig.take(processed as int + 1), now));
            }
        }
    }
    proof {
        assert(orig.take(orig.len() as int) =~= orig);
    }
    *g = acc;
}

/// An action announces a write or a delete of `key`.
pub open spec fn announces_key(a: LocalStorageAction, key: KeyId) -> bool {
    match a {
        LocalStorageAction::SendNet(e, r) => match e {
            SimpleRemoteEvent::SetKey(q, k, v, ver, x) => k == key,
            SimpleRemoteEvent::Del(q, k, ver) => k == key,
            _ => false,
        },
        _ => false,
    }
}

/// The retry phase of a tick leaves an acknowledged key alone: when
/// every slot of `key` is acknowledged, the retry chunk announces
/// nothing for `key`.
pub proof fn lemma_acked_not_resent(
    out: Seq<LocalStorageAction>,
    d: Seq<(KeyId, KeySlotData)>,
    seed: u64,
    key: KeyId,
)
    requires
        resend_data_matches(out, d, seed),
        forall|i: int| 0 <= i < d.len() && (#[trigger] d[i]).0 == key ==> d[i].1.acked,
    ensures
        forall|i: int| 0 <= i < out.len() ==> !announces_key(#[trigger] out[i], key),
    decreases d.len(),
{
    if d.len() > 0 {
        let p = d.last();
        assert(forall|i: int|
            0 <= i < d.drop_last().len() && (#[trigger] d.drop_last()[i]).0 == key
                ==> d.drop_last()[i].1.acked) by {
            assert(forall|i: int|
                0 <= i < d.drop_last().len() ==> #[trigger] d.drop_last()[i] == d[i]);
        }
        if !p.1.acked {
            assert(d[d.len() - 1].0 != key);
            lemma_acked_not_resent(out.drop_last(), d.drop_last(), seed, key);
            assert(forall|i: int|
                0 <= i < out.len() - 1 ==> #[trigger] out[i] == out.drop_last()[i]);
            assert(!announces_key(out.last(), key));
        } else {
            lemma_acked_not_resent(out, d.drop_last(), seed, key);
        }
    }
}

/// The anti-entropy phase of a tick leaves a fresh key alone: when no
/// slot of `key` is due yet, the sync chunk announces nothing for
/// `key`.
pub proof fn lemma_fresh_not_synced(
    out: Seq<LocalStorageAction>,
    d: Seq<(KeyId, KeySlotData)>,
    now: u64,
    sync: u64,
    seed: u64,
    key: KeyId,
)
    requires
        sync_data_matches(out, d, now, sync, seed),
        forall|i: int|
            0 <= i < d.len() && (#[trigger] d[i]).0 == key ==> !data_due(d[i].1, now, sync),
    ensures
        forall|i: int| 0 <= i < out.len() ==> !announces_key(#[trigger] out[i], key),
    decreases d.len(),
{
    if d.len() > 0 {
        let p = d.last();
        assert(forall|i: int|
            0 <= i < d.drop_last().len() && (#[trigger] d.drop_last()[i]).0 == key ==> !data_due(
                d.drop_last()[i].1,
                now,
                sync,
            )) by {
            assert(forall|i: int|
                0 <= i < d.drop_last().len() ==> #[trigger] d.drop_last()[i] == d[i]);
        }
        if data_due(p.1, now, sync) && p.1.value is Some {
            assert(d[d.len() - 1].0 != key);
            lemma_fresh_not_synced(out.drop_last(), d.drop_last(), now, sync, seed, key);
            assert(forall|i: int|
                0 <= i < out.len() - 1 ==> #[trigger] out[i] == out.drop_last()[i]);
            assert(!announces_key(out.last(), key));
        } else {
            lemma_fresh_not_synced(out, d.drop_last(), now, sync, seed, key);
        }
    }
}

/// A matching write acknowledgement ends the retry loop: once every
/// slot of `key` is acknowledged — as `on_event` leaves the slot when
/// a `SetAck` carries its version — the very next tick announces
/// nothing for `key`, as long as its anti-entropy resend is not due
/// yet.
pub proof fn lemma_ack_ends_retry(
    pre: SimpleLocalStorage,
    post: SimpleLocalStorage,
    now: u64,
    key: KeyId,
)
    requires
        pre.wf(),
        forall|i: int|
            0 <= i < pre.data@.len() && (#[trigger] pre.data@[i]).0 == key ==> pre.data@[i].1.acked
                && !data_due(pre.data@[i].1, now, pre.sync_each_ms),
        // the relation `tick(now)` establishes between the two states
        post.output_events@.len() == pre.output_events@.len() + count_unacked_data(pre.data@)
            + count_unacked_sub(pre.subscribe@) + count_due_data_valued(
            pre.data@,
            now,
            pre.sync_each_ms,
        ) + count_due_sub_wanted(pre.subscribe@, now, pre.sync_each_ms) + count_expired(
            pre.get_queue@,
            now,
        ),
        resend_data_matches(
            post.output_events@.subrange(
                pre.output_events@.len() as int,
                pre.output_events@.len() + count_unacked_data(pre.data@) as int,
            ),
            pre.data@,
            pre.req_id_seed,
        ),
        sync_data_matches(
            post.output_events@.subrange(
                pre.output_events@.len() + count_unacked_data(pre.data@) + count_unacked_sub(
                    pre.subscribe@,
                ) as int,
                pre.output_events@.len() + count_unacked_data(pre.data@) + count_unacked_sub(
                    pre.subscribe@,
                ) + count_due_data_valued(pre.data@, now, pre.sync_each_ms) as int,
            ),
            pre.data@,
            now,
            pre.sync_each_ms,
            wadd(
                wadd(pre.req_id_seed, count_unacked_data(pre.data@)),
                count_unacked_sub(pre.subscribe@),
            ),
        ),
    ensures
        forall|i: int|
            pre.output_events@.len() <= i < pre.output_events@.len() + count_unacked_data(
                pre.data@,
            ) ==> !announces_key(#[trigger] post.output_events@[i], key),
        forall|i: int|
            pre.output_events@.len() + count_unacked_data(pre.data@) + count_unacked_sub(
                pre.subscribe@,
            ) <= i < pre.output_events@.len() + count_unacked_data(pre.data@) + count_unacked_sub(
                pre.subscribe@,
            ) + count_due_data_valued(pre.data@, now, pre.sync_each_ms) ==> !announces_key(
                #[trigger] post.output_events@[i],
                key,
            ),
{
    let n0 = pre.output_events@.len() as int;
    let n1 = count_unacked_data(pre.data@) as int;
    let n2 = count_unacked_sub(pre.subscribe@) as int;
    let n3 = count_due_data_valued(pre.data@, now, pre.sync_each_ms) as int;
    lemma_acked_not_resent(
        post.output_events@.subrange(n0, n0 + n1),
        pre.data@,
        pre.req_id_seed,
        key,
    );
    lemma_fresh_not_synced(
        post.output_events@.subrange(n0 + n1 + n2, n0 + n1 + n2 + n3),
        pre.data@,
        now,
        pre.sync_each_ms,
        wadd(wadd(pre.req_id_seed, count_unacked_data(pre.data@)), count_unacked_sub(pre.subscribe@)),
        key,
    );
    assert forall|i: int| n0 <= i < n0 + n1 implies !announces_key(
        #[trigger] post.output_events@[i],
        key,
    ) by {
        assert(post.output_events@.subrange(n0, n0 + n1)[i - n0] == post.output_events@[i]);
    }
    assert forall|i: int| n0 + n1 + n2 <= i < n0 + n1 + n2 + n3 implies !announces_key(
        #[trigger] post.output_events@[i],
        key,
    ) by {
        assert(post.output_events@.subrange(n0 + n1 + n2, n0 + n1 + n2 + n3)[i - (n0 + n1 + n2)]
            == post.output_events@[i]);
    }
}

/// Versions are strictly monotonic within one publisher: `set` mints
/// `(now << 16) | seed` and advances the seed, so a later write to
/// the same key carries a strictly larger version — as long as time
/// does not run backwards, the clock stays below 2^48 milliseconds,
/// and fewer than 2^16 writes share one millisecond (at the seed's
/// wrap-around the claim fails, which is why the bound is required).
pub proof fn lemma_version_monotonic(now1: u64, now2: u64, seed: u16)
    requires
        now1 <= now2,
        now2 < 0x1_0000_0000_0000,
        seed < 0xFFFF,
    ensures
        ((now1 << 16u64) | (seed as u64)) < ((now2 << 16u64) | ((seed + 1) as u64)),
{
    assert((now1 << 16u64) | (seed as u64) == now1 * 0x1_0000 + seed) by (bit_vector)
        requires
            now1 < 0x1_0000_0000_0000,
    ;
    assert((now2 << 16u64) | ((seed + 1) as u64) == now2 * 0x1_0000 + (seed + 1)) by (bit_vector)
        requires
            now2 < 0x1_0000_0000_0000,
            seed < 0xFFFF,
    ;
    assert(now1 * 0x1_0000 + seed < now2 * 0x1_0000 + (seed + 1)) by (nonlinear_arith)
        requires
            now1 <= now2,
    ;
}

/// Advancing a seed by `m` and then `n` identifiers is advancing it
/// by `m + n`.
proof fn lemma_wadd_assoc(a: u64, m: nat, n: nat)
    ensures
        wadd(wadd(a, m), n) == wadd(a, m + n),
    decreases n,
{
    if n > 0 {
        lemma_wadd_assoc(a, m, (n - 1) as nat);
    }
}

/// One tick keeps the data keys it keeps distinct, and invents none.
proof fn lemma_tick_data_state_wf(d: Seq<(KeyId, KeySlotData)>, now: u64, sync: u64)
    requires
        distinct_keys(d),
    ensures
        distinct_keys(tick_data_state(d, now, sync)),
        forall|k: u64| has_key(tick_data_state(d, now, sync), k) ==> has_key(d, k),
    decreases d.len(),
{
    if d.len() > 0 {
        assert(distinct_keys(d.drop_last()));
        lemma_tick_data_state_wf(d.drop_last(), now, sync);
        let front = tick_data_state(d.drop_last(), now, sync);
        let whole = tick_data_state(d, now, sync);
        assert forall|k: u64| has_key(whole, k) implies has_key(d, k) by {
            let i = choose|i: int| 0 <= i < whole.len() && whole[i].0 == k;
            if i < front.len() {
                assert(front[i].0 == k);
                assert(has_key(front, k));
                assert(has_key(d.drop_last(), k));
                let j = choose|j: int| 0 <= j < d.drop_last().len() && d.drop_last()[j].0 == k;
                assert(d[j].0 == k);
            } else {
                assert(whole[i].0 == d.last().0);
                assert(d[d.len() - 1].0 == k);
            }
        }
        assert forall|i: int, j: int| 0 <= i < j < whole.len() implies (#[trigger] whole[i]).0 != (
        #[trigger] whole[j]).0 by {
            if j < front.len() {
            } else {
                assert(whole[j].0 == d.last().0);
                assert(front[i].0 == whole[i].0);
                assert(has_key(front, front[i].0));
                assert(has_key(d.drop_last(), front[i].0));
                let m = choose|m: int|
                    0 <= m < d.drop_last().len() && d.drop_last()[m].0 == front[i].0;
                assert(d[m].0 == front[i].0);
                assert(d[m].0 != d[d.len() - 1].0);
            }
        }
    }
}

/// One tick keeps the subscription keys distinct, invents none, and
/// carries each handler list over unchanged.
proof fn lemma_tick_sub_state_wf(d: Seq<(KeyId, KeySlotSubscribe)>, now: u64, sync: u64)
    requires
        distinct_keys(d),
        forall|i: int| 0 <= i < d.len() ==> distinct_handlers((#[trigger] d[i]).1.handlers@),
    ensures
        distinct_keys(tick_sub_state(d, now, sync)),
        forall|k: u64| has_key(tick_sub_state(d, now, sync), k) ==> has_key(d, k),
        forall|i: int|
            0 <= i < tick_sub_state(d, now, sync).len() ==> distinct_handlers(
                (#[trigger] tick_sub_state(d, now, sync)[i]).1.handlers@,
            ),
    decreases d.len(),
{
    if d.len() > 0 {
        assert(distinct_keys(d.drop_last()));
        assert(forall|i: int|
            0 <= i < d.drop_last().len() ==> distinct_handlers(
                (#[trigger] d.drop_last()[i]).1.handlers@,
            ));
        lemma_tick_sub_state_wf(d.drop_last(), now, sync);
        let front = tick_sub_state(d.drop_last(), now, sync);
        let whole = tick_sub_state(d, now, sync);
        assert forall|k: u64| has_key(whole, k) implies has_key(d, k) by {
            let i = choose|i: int| 0 <= i < whole.len() && whole[i].0 == k;
            if i < front.len() {
                assert(front[i].0 == k);
                assert(has_key(front, k));
                assert(has_key(d.drop_last(), k));
                let j = choose|j: int| 0 <= j < d.drop_last().len() && d.drop_last()[j].0 == k;
                assert(d[j].0 == k);
            } else {
                assert(whole[i].0 == d.last().0);
                assert(d[d.len() - 1].0 == k);
            }
        }
        assert forall|i: int, j: int| 0 <= i < j < whole.len() implies (#[trigger] whole[i]).0 != (
        #[trigger] whole[j]).0 by {
            if j < front.len() {
            } else {
                assert(whole[j].0 == d.last().0);
                assert(front[i].0 == whole[i].0);
                assert(has_key(front, front[i].0));
                assert(has_key(d.drop_last(), front[i].0));
                let m = choose|m: int|
                    0 <= m < d.drop_last().len() && d.drop_last()[m].0 == front[i].0;
                assert(d[m].0 == front[i].0);
                assert(d[m].0 != d[d.len() - 1].0);
            }
        }
        assert(distinct_handlers(d.last().1.handlers@));
    }
}

/// One tick keeps the pending request identifiers distinct.
proof fn lemma_tick_get_state_wf(g: Seq<(ReqId, KeySlotGetCallback)>, now: u64)
    requires
        distinct_keys(g),
    ensures
        distinct_keys(tick_get_state(g, now)),
        forall|k: u64| has_key(tick_get_state(g, now), k) ==> has_key(g, k),
    decreases g.len(),
{
    if g.len() > 0 {
        assert(distinct_keys(g.drop_last()));
        lemma_tick_get_state_wf(g.drop_last(), now);
        let front = tick_get_state(g.drop_last(), now);
        let whole = tick_get_state(g, now);
        assert forall|k: u64| has_key(whole, k) implies has_key(g, k) by {
            let i = choose|i: int| 0 <= i < whole.len() && whole[i].0 == k;
            if i < front.len() {
                assert(front[i].0 == k);
                assert(has_key(front, k));
                assert(has_key(g.drop_last(), k));
                let j = choose|j: int| 0 <= j < g.drop_last().len() && g.drop_last()[j].0 == k;
                assert(g[j].0 == k);
            } else {
                assert(whole[i].0 == g.last().0);
                assert(g[g.len() - 1].0 == k);
            }
        }
        assert forall|i: int, j: int| 0 <= i < j < whole.len() implies (#[trigger] whole[i]).0 != (
        #[trigger] whole[j]).0 by {
            if j < front.len() {
            } else {
                assert(whole[j].0 == g.last().0);
                assert(front[i].0 == whole[i].0);
                assert(has_key(front, front[i].0));
                assert(has_key(g.drop_last(), front[i].0));
                let m = choose|m: int|
                    0 <= m < g.drop_last().len() && g.drop_last()[m].0 == front[i].0;
                assert(g[m].0 == front[i].0);
                assert(g[m].0 != g[g.len() - 1].0);
            }
        }
    }
}

impl SimpleLocalStorage {
    /// Internal consistency: every association list keeps its keys
    /// pairwise distinct.
    pub open spec fn wf(self) -> bool {
        &&& distinct_keys(self.data@)
        &&& distinct_keys(self.subscribe@)
        &&& distinct_keys(self.get_queue@)
        &&& forall|i: int|
            0 <= i < self.subscribe@.len() ==> distinct_handlers(
                (#[trigger] self.subscribe@[i]).1.handlers@,
            )
    }

    /// A fresh replica: no state, no pending output, seeds at zero.
    pub fn new(sync_each_ms: u64) -> (r: Self)
        ensures
            r.wf(),
            r.req_id_seed == 0,
            r.version_seed == 0,
            r.sync_each_ms == sync_each_ms,
            r.data@ == Seq::<(KeyId, KeySlotData)>::empty(),
            r.subscribe@ == Seq::<(KeyId, KeySlotSubscribe)>::empty(),
            r.output_events@ == Seq::<LocalStorageAction>::empty(),
            r.get_queue@ == Seq::<(ReqId, KeySlotGetCallback)>::empty(),
    {
        SimpleLocalStorage {
            req_id_seed: 0,
            version_seed: 0,
            sync_each_ms,
            data: Vec::new(),
            subscribe: Vec::new(),
            output_events: VecDeque::new(),
            get_queue: Vec::new(),
        }
    }

    /// Hand out the next request identifier and advance the seed.
    fn gen_req_id(&mut self) -> (r: u64)
        ensures
            r == old(self).req_id_seed,
            final(self).req_id_seed == old(self).req_id_seed.wrapping_add(1),
            final(self).version_seed == old(self).version_seed,
            final(self).sync_each_ms == old(self).sync_each_ms,
            final(self).data == old(self).data,
            final(self).subscribe == old(self).subscribe,
            final(self).output_events == old(self).output_events,
            final(self).get_queue == old(self).get_queue,
    {
        let r = self.req_id_seed;
        self.req_id_seed = self.req_id_seed.wrapping_add(1);
        r
    }

    /// Mint the version for a write at `now_ms`: the timestamp shifted
    /// left by sixteen bits, or-ed with the seed, which then advances
    /// with sixteen-bit wrap-around.
    fn gen_version(&mut self, now_ms: u64) -> (r: u64)
        ensures
            r == ((now_ms << 16u64) | (old(self).version_seed as u64)),
            final(self).version_seed == old(self).version_seed.wrapping_add(1),
            final(self).req_id_seed == old(self).req_id_seed,
            final(self).sync_each_ms == old(self).sync_each_ms,
            final(self).data == old(self).data,
            final(self).subscribe == old(self).subscribe,
            final(self).output_events == old(self).output_events,
            final(self).get_queue == old(self).get_queue,
            now_ms < 0x1_0000_0000_0000 ==> r == now_ms * 0x1_0000 + old(self).version_seed,
    {
        let res: u64 = (now_ms << 16u64) | (self.version_seed as u64);
        proof {
            let seed = self.version_seed;
            assert(now_ms < 0x1_0000_0000_0000 ==> ((now_ms << 16u64) | (seed as u64))
                == now_ms * 0x1_0000 + seed) by (bit_vector);
        }
        self.version_seed = self.version_seed.wrapping_add(1);
        res
    }

    /// Publish `value` under `key`: the slot is written with a fresh
    /// version and marked unacknowledged, and one write announcement
    /// is queued for the network.
    pub fn set(&mut self, now_ms: u64, key: KeyId, value: ValueType, ex: Option<u64>)
        requires
            old(self).wf(),
        ensures
            final(self).wf(),
            final(self).req_id_seed == old(self).req_id_seed.wrapping_add(1),
            final(self).version_seed == old(self).version_seed.wrapping_add(1),
            final(self).sync_each_ms == old(self).sync_each_ms,
            final(self).subscribe == old(self).subscribe,
            final(self).get_queue == old(self).get_queue,
            // the slot for `key` holds the value under the minted version
            final(self).data@.len() == if has_key(old(self).data@, key) {
                old(self).data@.len()
            } else {
                old(self).data@.len() + 1
            },
            forall|j: int|
                0 <= j < old(self).data@.len() ==> (#[trigger] final(self).data@[j]).0
                    == old(self).data@[j].0,
            forall|j: int|
                0 <= j < old(self).data@.len() && old(self).data@[j].0 != key
                    ==> #[trigger] final(self).data@[j] == old(self).data@[j],
            !has_key(old(self).data@, key) ==> final(self).data@.last().0 == key,
            forall|j: int|
                0 <= j < final(self).data@.len() && (#[trigger] final(self).data@[j]).0 == key
                    ==> set_slot(
                    final(self).data@[j].1,
                    value@,
                    ex,
                    (now_ms << 16u64) | (old(self).version_seed as u64),
                ),
            // exactly one announcement is queued
            final(self).output_events@.len() == old(self).output_events@.len() + 1,
            final(self).output_events@.drop_last() == old(self).output_events@,
            is_set_net(
                final(self).output_events@.last(),
                old(self).req_id_seed,
                key,
                value@,
                (now_ms << 16u64) | (old(self).version_seed as u64),
                ex,
            ),
    {
        let req_id = self.gen_req_id();
        let version = self.gen_version(now_ms);
        let slot = KeySlotData {
            value: Some(value.clone()),
            ex,
            version,
            last_sync: 0,
            acked: false,
        };
        match index_of_key(&self.data, key) {
            Some(i) => {
                self.data.set(i, (key, slot));
            },
            None => {
                self.data.push((key, slot));
            },
        }
        self.output_events.push_back(
            LocalStorageAction::SendNet(
                SimpleRemoteEvent::SetKey(req_id, key, value, version, ex),
                RouteRule::ToKey(#[verifier::truncate] (key as u32)),
            ),
        );
    }

    /// Forget `key`: if this node published it, the slot keeps its
    /// version but loses its value and its acknowledgement, and one
    /// delete announcement is queued.  A request identifier is
    /// consumed either way.
    pub fn del(&mut self, key: KeyId)
        requires
            old(self).wf(),
        ensures
            final(self).wf(),
            final(self).req_id_seed == old(self).req_id_seed.wrapping_add(1),
            final(self).version_seed == old(self).version_seed,
            final(self).sync_each_ms == old(self).sync_each_ms,
            final(self).subscribe == old(self).subscribe,
            final(self).get_queue == old(self).get_queue,
            final(self).data@.len() == old(self).data@.len(),
            forall|j: int|
                0 <= j < old(self).data@.len() && old(self).data@[j].0 != key
                    ==> #[trigger] final(self).data@[j] == old(self).data@[j],
            forall|j: int|
                0 <= j < old(self).data@.len() && (#[trigger] old(self).data@[j]).0 == key
                    ==> final(self).data@[j] == (
                    key,
                    (KeySlotData {
                        value: None,
                        ex: old(self).data@[j].1.ex,
                        version: old(self).data@[j].1.version,
                        last_sync: 0,
                        acked: false,
                    }),
                ),
            // an announcement is queued exactly when the key was held
            !has_key(old(self).data@, key) ==> final(self).output_events@
                == old(self).output_events@,
            has_key(old(self).data@, key) ==> {
                &&& final(self).output_events@.len() == old(self).output_events@.len() + 1
                &&& final(self).output_events@.drop_last() == old(self).output_events@
                &&& forall|j: int|
                    0 <= j < old(self).data@.len() && (#[trigger] old(self).data@[j]).0 == key
                        ==> is_del_net(
                        final(self).output_events@.last(),
                        old(self).req_id_seed,
                        key,
                        old(self).data@[j].1.version,
                    )
            },
    {
        let req_id = self.gen_req_id();
        match index_of_key(&self.data, key) {
            Some(i) => {
                let version = self.data[i].1.version;
                let ex = self.data[i].1.ex;
                let slot = KeySlotData { value: None, ex, version, last_sync: 0, acked: false };
                self.data.set(i, (key, slot));
                self.output_events.push_back(
                    LocalStorageAction::SendNet(
                        SimpleRemoteEvent::Del(req_id, key, version),
                        RouteRule::ToKey(#[verifier::truncate] (key as u32)),
                    ),
                );
            },
            None => {},
        }
    }

    /// Ask the network for `key`: the request is remembered with its
    /// deadline, and one query is queued.
    pub fn get(&mut self, now_ms: u64, key: KeyId, uuid: u64, service_id: u8, timeout_ms: u64)
        requires
            old(self).wf(),
            now_ms + timeout_ms <= u64::MAX,
        ensures
            final(self).wf(),
            final(self).req_id_seed == old(self).req_id_seed.wrapping_add(1),
            final(self).version_seed == old(self).version_seed,
            final(self).sync_each_ms == old(self).sync_each_ms,
            final(self).subscribe == old(self).subscribe,
            final(self).data == old(self).data,
            // the pending request is recorded under the fresh identifier
            final(self).get_queue@.len() == if has_key(old(self).get_queue@, old(self).req_id_seed) {
                old(self).get_queue@.len()
            } else {
                old(self).get_queue@.len() + 1
            },
            forall|j: int|
                0 <= j < old(self).get_queue@.len() && old(self).get_queue@[j].0
                    != old(self).req_id_seed ==> #[trigger] final(self).get_queue@[j]
                    == old(self).get_queue@[j],
            forall|j: int|
                0 <= j < old(self).get_queue@.len() ==> (#[trigger] final(self).get_queue@[j]).0
                    == old(self).get_queue@[j].0,
            !has_key(old(self).get_queue@, old(self).req_id_seed)
                ==> final(self).get_queue@.last().0 == old(self).req_id_seed,
            forall|j: int|
                0 <= j < final(self).get_queue@.len() && (#[trigger] final(self).get_queue@[j]).0
                    == old(self).req_id_seed ==> final(self).get_queue@[j].1 == (KeySlotGetCallback {
                    key,
                    timeout_after_ts: (now_ms + timeout_ms) as u64,
                    uuid,
                    service_id,
                }),
            final(self).output_events@.len() == old(self).output_events@.len() + 1,
            final(self).output_events@.drop_last() == old(self).output_events@,
            is_get_net(final(self).output_events@.last(), old(self).req_id_seed, key),
    {
        let req_id = self.gen_req_id();
        let cb = KeySlotGetCallback { key, timeout_after_ts: now_ms + timeout_ms, uuid, service_id };
        match index_of_key(&self.get_queue, req_id) {
            Some(i) => {
                self.get_queue.set(i, (req_id, cb));
            },
            None => {
                self.get_queue.push((req_id, cb));
            },
        }
        self.output_events.push_back(
            LocalStorageAction::SendNet(
                SimpleRemoteEvent::Get(req_id, key),
                RouteRule::ToKey(#[verifier::truncate] (key as u32)),
            ),
        );
    }

    /// Register the handler `(uuid, service_id)` for changes of `key`.
    /// The first subscriber of a key creates its slot and queues one
    /// subscription announcement; later subscribers only join the
    /// handler list, and a cached value is replayed to the newcomer at
    /// once, with no network traffic.
    pub fn subscribe(&mut self, key: KeyId, ex: Option<u64>, uuid: u64, service_id: u8)
        requires
            old(self).wf(),
        ensures
            final(self).wf(),
            final(self).version_seed == old(self).version_seed,
            final(self).sync_each_ms == old(self).sync_each_ms,
            final(self).data == old(self).data,
            final(self).get_queue == old(self).get_queue,
            final(self).subscribe@.len() == if has_key(old(self).subscribe@, key) {
                old(self).subscribe@.len()
            } else {
                old(self).subscribe@.len() + 1
            },
            forall|j: int|
                0 <= j < old(self).subscribe@.len() && old(self).subscribe@[j].0 != key
                    ==> #[trigger] final(self).subscribe@[j] == old(self).subscribe@[j],
            forall|j: int|
                0 <= j < old(self).subscribe@.len() ==> (#[trigger] final(self).subscribe@[j]).0
                    == old(self).subscribe@[j].0,
            // a key already subscribed only gains the handler, keeps the
            // rest of its slot, and replays a cached value
            has_key(old(self).subscribe@, key) ==> {
                &&& final(self).req_id_seed == old(self).req_id_seed
                &&& forall|j: int|
                    0 <= j < old(self).subscribe@.len() && (#[trigger] old(self).subscribe@[j]).0
                        == key ==> {
                        let os = old(self).subscribe@[j].1;
                        let ns = final(self).subscribe@[j].1;
                        &&& ns.ex == os.ex
                        &&& ns.last_sync == os.last_sync
                        &&& ns.sub == os.sub
                        &&& ns.acked == os.acked
                        &&& ns.value == os.value
                        &&& ns.handlers@ == if os.handlers@.contains((uuid, service_id)) {
                            os.handlers@
                        } else {
                            os.handlers@.push((uuid, service_id))
                        }
                        &&& match os.value {
                            Some(v) => {
                                &&& final(self).output_events@.len() == old(
                                    self,
                                ).output_events@.len() + 1
                                &&& final(self).output_events@.drop_last()
                                    == old(self).output_events@
                                &&& is_changed(
                                    final(self).output_events@.last(),
                                    service_id,
                                    uuid,
                                    key,
                                    Some(v.0@),
                                    v.1,
                                    v.2,
                                )
                            },
                            None => final(self).output_events@ == old(self).output_events@,
                        }
                    }
            },
            // a new key gets a fresh wanted, unacknowledged slot and one
            // announcement
            !has_key(old(self).subscribe@, key) ==> {
                &&& final(self).req_id_seed == old(self).req_id_seed.wrapping_add(1)
                &&& final(self).subscribe@.last().0 == key
                &&& {
                    let ns = final(self).subscribe@.last().1;
                    &&& ns.ex == ex
                    &&& ns.last_sync == 0
                    &&& ns.sub
                    &&& !ns.acked
                    &&& ns.handlers@ == seq![(uuid, service_id)]
                    &&& ns.value is None
                }
                &&& final(self).output_events@.len() == old(self).output_events@.len() + 1
                &&& final(self).output_events@.drop_last() == old(self).output_events@
                &&& is_sub_net(final(self).output_events@.last(), old(self).req_id_seed, key, ex)
            },
    {
        match index_of_key(&self.subscribe, key) {
            Some(i) => {
                let mut pair = self.subscribe.remove(i);
                if index_of_handler(&pair.1.handlers, uuid, service_id).is_none() {
                    pair.1.handlers.push((uuid, service_id));
                }
                match &pair.1.value {
                    Some(v) => {
                        self.output_events.push_back(
                            LocalStorageAction::LocalOnChanged(
                                service_id,
                                uuid,
                                key,
                                Some(v.0.clone()),
                                v.1,
                                v.2,
                            ),
                        );
                    },
                    None => {},
                }
                self.subscribe.insert(i, pair);
            },
            None => {
                let req_id = self.gen_req_id();
                let mut handlers: Vec<(u64, u8)> = Vec::new();
                handlers.push((uuid, service_id));
                let slot = KeySlotSubscribe {
                    ex,
                    last_sync: 0,
                    sub: true,
                    acked: false,
                    handlers,
                    value: None,
                };
                self.subscribe.push((key, slot));
                self.output_events.push_back(
                    LocalStorageAction::SendNet(
                        SimpleRemoteEvent::Sub(req_id, key, ex),
                        RouteRule::ToKey(#[verifier::truncate] (key as u32)),
                    ),
                );
            },
        }
    }

    /// Remove the handler `(uuid, service_id)` from `key`.  Only when
    /// the last handler leaves does the slot turn into a wanted,
    /// unacknowledged un-subscription, with one announcement queued.
    /// A request identifier is consumed either way.
    pub fn unsubscribe(&mut self, key: KeyId, uuid: u64, service_id: u8)
        requires
            old(self).wf(),
        ensures
            final(self).wf(),
            final(self).req_id_seed == old(self).req_id_seed.wrapping_add(1),
            final(self).version_seed == old(self).version_seed,
            final(self).sync_each_ms == old(self).sync_each_ms,
            final(self).data == old(self).data,
            final(self).get_queue == old(self).get_queue,
            final(self).subscribe@.len() == old(self).subscribe@.len(),
            forall|j: int|
                0 <= j < old(self).subscribe@.len() && old(self).subscribe@[j].0 != key
                    ==> #[trigger] final(self).subscribe@[j] == old(self).subscribe@[j],
            forall|j: int|
                0 <= j < old(self).subscribe@.len() ==> (#[trigger] final(self).subscribe@[j]).0
                    == old(self).subscribe@[j].0,
            forall|j: int|
                0 <= j < old(self).subscribe@.len() && (#[trigger] old(self).subscribe@[j]).0
                    == key ==> {
                    let os = old(self).subscribe@[j].1;
                    let ns = final(self).subscribe@[j].1;
                    let remaining = if os.handlers@.contains((uuid, service_id)) {
                        os.handlers@.remove_value((uuid, service_id))
                    } else {
                        os.handlers@
                    };
                    &&& ns.handlers@ == remaining
                    &&& ns.ex == os.ex
                    &&& ns.value == os.value
                    &&& if remaining.len() == 0 {
                        &&& !ns.sub
                        &&& ns.last_sync == 0
                        &&& !ns.acked
                        &&& final(self).output_events@.len() == old(self).output_events@.len()
                            + 1
                        &&& final(self).output_events@.drop_last() == old(self).output_events@
                        &&& is_unsub_net(
                            final(self).output_events@.last(),
                            old(self).req_id_seed,
                            key,
                        )
                    } else {
                        &&& ns.sub == os.sub
                        &&& ns.last_sync == os.last_sync
                        &&& ns.acked == os.acked
                        &&& final(self).output_events@ == old(self).output_events@
                    }
                },
            !has_key(old(self).subscribe@, key) ==> final(self).output_events@
                == old(self).output_events@,
    {
        let req_id = self.gen_req_id();
        match index_of_key(&self.subscribe, key) {
            Some(i) => {
                let mut pair = self.subscribe.remove(i);
                let ghost oh = pair.1.handlers@;
                match index_of_handler(&pair.1.handlers, uuid, service_id) {
                    Some(h) => {
                        pair.1.handlers.remove(h);
                        proof {
                            oh.index_of_first_ensures((uuid, service_id));
                            assert(distinct_handlers(oh));
                            let fi = oh.index_of_first((uuid, service_id))->Some_0;
                            assert(oh[fi] == (uuid, service_id));
                            assert(fi == h as int);
                        }
                    },
                    None => {},
                }
                if pair.1.handlers.len() == 0 {
                    pair.1.sub = false;
                    pair.1.last_sync = 0;
                    pair.1.acked = false;
                    self.output_events.push_back(
                        LocalStorageAction::SendNet(
                            SimpleRemoteEvent::Unsub(req_id, key),
                            RouteRule::ToKey(#[verifier::truncate] (key as u32)),
                        ),
                    );
                }
                self.subscribe.insert(i, pair);
            },
            None => {},
        }
    }

    /// One heartbeat at `now`.  In this order, the tick queues a retry
    /// for every unacknowledged data slot, a retry for every
    /// unacknowledged subscription slot, an anti-entropy resend for
    /// every acknowledged slot that is due and still holds something,
    /// and a timeout answer for every expired `get`; due slots with
    /// nothing left to announce are garbage collected, the rest of the
    /// due slots are marked synced at `now`.
    pub fn tick(&mut self, now: u64)
        requires
            old(self).wf(),
        ensures
            final(self).wf(),
            final(self).version_seed == old(self).version_seed,
            final(self).sync_each_ms == old(self).sync_each_ms,
            final(self).data@ == tick_data_state(old(self).data@, now, old(self).sync_each_ms),
            final(self).subscribe@ == tick_sub_state(
                old(self).subscribe@,
                now,
                old(self).sync_each_ms,
            ),
            final(self).get_queue@ == tick_get_state(old(self).get_queue@, now),
            final(self).req_id_seed == wadd(
                old(self).req_id_seed,
                count_unacked_data(old(self).data@) + count_unacked_sub(old(self).subscribe@)
                    + count_due_data(old(self).data@, now, old(self).sync_each_ms) + count_due_sub(
                    old(self).subscribe@,
                    now,
                    old(self).sync_each_ms,
                ),
            ),
            ({
                let sync = old(self).sync_each_ms;
                let n0 = old(self).output_events@.len() as int;
                let n1 = count_unacked_data(old(self).data@) as int;
                let n2 = count_unacked_sub(old(self).subscribe@) as int;
                let n3 = count_due_data_valued(old(self).data@, now, sync) as int;
                let n4 = count_due_sub_wanted(old(self).subscribe@, now, sync) as int;
                let n5 = count_expired(old(self).get_queue@, now) as int;
                let s0 = old(self).req_id_seed;
                let s1 = wadd(s0, count_unacked_data(old(self).data@));
                let s2 = wadd(s1, count_unacked_sub(old(self).subscribe@));
                let s3 = wadd(s2, count_due_data(old(self).data@, now, sync));
                let f = final(self).output_events@;
                &&& f.len() == n0 + n1 + n2 + n3 + n4 + n5
                &&& f.subrange(0, n0) == old(self).output_events@
                &&& resend_data_matches(f.subrange(n0, n0 + n1), old(self).data@, s0)
                &&& resend_sub_matches(f.subrange(n0 + n1, n0 + n1 + n2), old(self).subscribe@, s1)
                &&& sync_data_matches(
                    f.subrange(n0 + n1 + n2, n0 + n1 + n2 + n3),
                    old(self).data@,
                    now,
                    sync,
                    s2,
                )
                &&& sync_sub_matches(
                    f.subrange(n0 + n1 + n2 + n3, n0 + n1 + n2 + n3 + n4),
                    old(self).subscribe@,
                    now,
                    sync,
                    s3,
                )
                &&& timeout_matches(
                    f.subrange(n0 + n1 + n2 + n3 + n4, n0 + n1 + n2 + n3 + n4 + n5),
                    old(self).get_queue@,
                    now,
                )
            }),
    {
        let sync = self.sync_each_ms;
        let ghost n0 = self.output_events@.len() as int;
        resend_data_pass(&self.data, &mut self.output_events, &mut self.req_id_seed);
        let ghost o1 = self.output_events@;
        resend_sub_pass(&self.subscribe, &mut self.output_events, &mut self.req_id_seed);
        let ghost o2 = self.output_events@;
        sync_data_pass(&self.data, now, sync, &mut self.output_events, &mut self.req_id_seed);
        let ghost o3 = self.output_events@;
        sync_sub_pass(
            &self.subscribe,
            now,
            sync,
            &mut self.output_events,
            &mut self.req_id_seed,
        );
        let ghost o4 = self.output_events@;
        timeout_pass(&self.get_queue, now, &mut self.output_events);
        let ghost o5 = self.output_events@;
        proof {
            let f = self.output_events@;
            assert(f.subrange(0, n0) =~= old(self).output_events@);
            assert(f.subrange(n0, o1.len() as int) =~= o1.subrange(n0, o1.len() as int));
            assert(f.subrange(o1.len() as int, o2.len() as int) =~= o2.subrange(
                o1.len() as int,
                o2.len() as int,
            ));
            assert(f.subrange(o2.len() as int, o3.len() as int) =~= o3.subrange(
                o2.len() as int,
                o3.len() as int,
            ));
            assert(f.subrange(o3.len() as int, o4.len() as int) =~= o4.subrange(
                o3.len() as int,
                o4.len() as int,
            ));
        }
        gc_data_pass(&mut self.data, now, sync);
        gc_sub_pass(&mut self.subscribe, now, sync);
        gc_get_pass(&mut self.get_queue, now);
        proof {
            lemma_tick_data_state_wf(old(self).data@, now, sync);
            lemma_tick_sub_state_wf(old(self).subscribe@, now, sync);
            lemma_tick_get_state_wf(old(self).get_queue@, now);
            let s0 = old(self).req_id_seed;
            let c1 = count_unacked_data(old(self).data@);
            let c2 = count_unacked_sub(old(self).subscribe@);
            let c3 = count_due_data(old(self).data@, now, sync);
            let c4 = count_due_sub(old(self).subscribe@, now, sync);
            lemma_wadd_assoc(s0, c1, c2);
            lemma_wadd_assoc(s0, c1 + c2, c3);
            lemma_wadd_assoc(s0, c1 + c2 + c3, c4);
        }
    }

    /// Take one event from a remote authority.  Acknowledgements mark
    /// the matching slot acknowledged — a write only when the version
    /// matches, a delete only when the acknowledged version is not
    /// newer than the slot, a subscription only when the slot still
    /// wants the acknowledged direction.  An answered `get` is removed
    /// and handed to its caller.  A change notification is always
    /// acknowledged back to its sender, and when the key is subscribed
    /// the cached value is updated and the change fans out to every
    /// handler of the slot, in order.
    pub fn on_event(&mut self, from: u32, event: SimpleLocalEvent)
        requires
            old(self).wf(),
        ensures
            final(self).wf(),
            final(self).req_id_seed == old(self).req_id_seed,
            final(self).version_seed == old(self).version_seed,
            final(self).sync_each_ms == old(self).sync_each_ms,
            // a write acknowledgement lands iff the slot still has that
            // version
            event matches SimpleLocalEvent::SetAck(r0, key, version, success) ==> {
                &&& final(self).subscribe == old(self).subscribe
                &&& final(self).get_queue == old(self).get_queue
                &&& final(self).output_events@ == old(self).output_events@
                &&& final(self).data@.len() == old(self).data@.len()
                &&& forall|j: int|
                    0 <= j < old(self).data@.len() ==> #[trigger] final(self).data@[j] == if (
                    old(self).data@[j].0 == key && success && old(self).data@[j].1.version
                        == version) {
                        (
                            key,
                            (KeySlotData {
                                value: old(self).data@[j].1.value,
                                ex: old(self).data@[j].1.ex,
                                version: old(self).data@[j].1.version,
                                last_sync: old(self).data@[j].1.last_sync,
                                acked: true,
                            }),
                        )
                    } else {
                        old(self).data@[j]
                    }
            },
            // an answered get is removed and handed to its caller
            event matches SimpleLocalEvent::GetAck(req, k0, value) ==> {
                &&& final(self).subscribe == old(self).subscribe
                &&& final(self).data == old(self).data
                &&& !has_key(old(self).get_queue@, req) ==> {
                    &&& final(self).get_queue@ == old(self).get_queue@
                    &&& final(self).output_events@ == old(self).output_events@
                }
                &&& forall|j: int|
                    0 <= j < old(self).get_queue@.len() && (#[trigger] old(self).get_queue@[j]).0
                        == req ==> {
                        &&& final(self).get_queue@ == old(self).get_queue@.remove(j)
                        &&& final(self).output_events@ == old(self).output_events@.push(
                            LocalStorageAction::LocalOnGet(
                                old(self).get_queue@[j].1.service_id,
                                old(self).get_queue@[j].1.uuid,
                                old(self).get_queue@[j].1.key,
                                Ok(value),
                            ),
                        )
                    }
            },
            // a delete acknowledgement lands iff it is not older than the
            // slot, or carries no version at all
            event matches SimpleLocalEvent::DelAck(r0, key, version) ==> {
                &&& final(self).subscribe == old(self).subscribe
                &&& final(self).get_queue == old(self).get_queue
                &&& final(self).output_events@ == old(self).output_events@
                &&& final(self).data@.len() == old(self).data@.len()
                &&& forall|j: int|
                    0 <= j < old(self).data@.len() ==> #[trigger] final(self).data@[j] == if (
                    old(self).data@[j].0 == key && (match version {
                        Some(dv) => old(self).data@[j].1.version >= dv,
                        None => true,
                    })) {
                        (
                            key,
                            (KeySlotData {
                                value: old(self).data@[j].1.value,
                                ex: old(self).data@[j].1.ex,
                                version: old(self).data@[j].1.version,
                                last_sync: old(self).data@[j].1.last_sync,
                                acked: true,
                            }),
                        )
                    } else {
                        old(self).data@[j]
                    }
            },
            // a subscribe acknowledgement lands iff the slot still wants
            // the subscription
            event matches SimpleLocalEvent::SubAck(r0, key) ==> {
                &&& final(self).data == old(self).data
                &&& final(self).get_queue == old(self).get_queue
                &&& final(self).output_events@ == old(self).output_events@
                &&& final(self).subscribe@.len() == old(self).subscribe@.len()
                &&& forall|j: int|
                    0 <= j < old(self).subscribe@.len() ==> #[trigger] final(self).subscribe@[j]
                        == if (old(self).subscribe@[j].0 == key && old(self).subscribe@[j].1.sub) {
                        (
                            key,
                            (KeySlotSubscribe {
                                ex: old(self).subscribe@[j].1.ex,
                                last_sync: old(self).subscribe@[j].1.last_sync,
                                sub: old(self).subscribe@[j].1.sub,
                                acked: true,
                                handlers: old(self).subscribe@[j].1.handlers,
                                value: old(self).subscribe@[j].1.value,
                            }),
                        )
                    } else {
                        old(self).subscribe@[j]
                    }
            },
            // an unsubscribe acknowledgement lands iff it reports success
            // and the slot still wants to be unsubscribed
            event matches SimpleLocalEvent::UnsubAck(r0, key, success) ==> {
                &&& final(self).data == old(self).data
                &&& final(self).get_queue == old(self).get_queue
                &&& final(self).output_events@ == old(self).output_events@
                &&& final(self).subscribe@.len() == old(self).subscribe@.len()
                &&& forall|j: int|
                    0 <= j < old(self).subscribe@.len() ==> #[trigger] final(self).subscribe@[j]
                        == if (old(self).subscribe@[j].0 == key && success && !old(self).subscribe@[j].1.sub) {
                        (
                            key,
                            (KeySlotSubscribe {
                                ex: old(self).subscribe@[j].1.ex,
                                last_sync: old(self).subscribe@[j].1.last_sync,
                                sub: old(self).subscribe@[j].1.sub,
                                acked: true,
                                handlers: old(self).subscribe@[j].1.handlers,
                                value: old(self).subscribe@[j].1.value,
                            }),
                        )
                    } else {
                        old(self).subscribe@[j]
                    }
            },
            // a change notification is acknowledged to its sender; a
            // subscribed key caches the value and fans the change out to
            // every handler in order
            event matches SimpleLocalEvent::OnKeySet(req, key, value, version, source) ==> {
                &&& final(self).data == old(self).data
                &&& final(self).get_queue == old(self).get_queue
                &&& final(self).subscribe@.len() == old(self).subscribe@.len()
                &&& forall|j: int|
                    0 <= j < old(self).subscribe@.len() && old(self).subscribe@[j].0 != key
                        ==> #[trigger] final(self).subscribe@[j] == old(self).subscribe@[j]
                &&& forall|j: int|
                    0 <= j < old(self).subscribe@.len() ==> (#[trigger] final(self).subscribe@[j]).0 == old(self).subscribe@[j].0
                &&& final(self).output_events@.len() > old(self).output_events@.len()
                &&& final(self).output_events@.subrange(0, old(self).output_events@.len() as int)
                    == old(self).output_events@
                &&& final(self).output_events@[old(self).output_events@.len() as int]
                    == LocalStorageAction::SendNet(
                    SimpleRemoteEvent::OnKeySetAck(req),
                    RouteRule::ToNode(from),
                )
                &&& !has_key(old(self).subscribe@, key) ==> final(self).output_events@.len()
                    == old(self).output_events@.len() + 1
                &&& forall|j: int|
                    0 <= j < old(self).subscribe@.len() && (#[trigger] old(self).subscribe@[j]).0
                        == key ==> {
                        let os = old(self).subscribe@[j].1;
                        let ns = final(self).subscribe@[j].1;
                        &&& ns.ex == os.ex
                        &&& ns.last_sync == os.last_sync
                        &&& ns.sub == os.sub
                        &&& ns.acked == os.acked
                        &&& ns.handlers == os.handlers
                        &&& ns.value matches Some(t) && t.0@ == value@ && t.1 == version && t.2
                            == source
                        &&& if os.sub {
                            &&& final(self).output_events@.len() == old(self).output_events@.len()
                                + 1 + os.handlers@.len()
                            &&& forall|h: int|
                                0 <= h < os.handlers@.len() ==> is_changed(
                                    #[trigger] final(self).output_events@[old(self).output_events@.len() + 1 + h],
                                    os.handlers@[h].1,
                                    os.handlers@[h].0,
                                    key,
                                    Some(value@),
                                    version,
                                    source,
                                )
                        } else {
                            final(self).output_events@.len() == old(self).output_events@.len() + 1
                        }
                    }
            },
            // a delete notification is acknowledged and fans out with no
            // value
            event matches SimpleLocalEvent::OnKeyDel(req, key, version, source) ==> {
                &&& final(self).data == old(self).data
                &&& final(self).get_queue == old(self).get_queue
                &&& final(self).subscribe@.len() == old(self).subscribe@.len()
                &&& forall|j: int|
                    0 <= j < old(self).subscribe@.len() && old(self).subscribe@[j].0 != key
                        ==> #[trigger] final(self).subscribe@[j] == old(self).subscribe@[j]
                &&& forall|j: int|
                    0 <= j < old(self).subscribe@.len() ==> (#[trigger] final(self).subscribe@[j]).0 == old(self).subscribe@[j].0
                &&& final(self).output_events@.len() > old(self).output_events@.len()
                &&& final(self).output_events@.subrange(0, old(self).output_events@.len() as int)
                    == old(self).output_events@
                &&& final(self).output_events@[old(self).output_events@.len() as int]
                    == LocalStorageAction::SendNet(
                    SimpleRemoteEvent::OnKeyDelAck(req),
                    RouteRule::ToNode(from),
                )
                &&& !has_key(old(self).subscribe@, key) ==> final(self).output_events@.len()
                    == old(self).output_events@.len() + 1
                &&& forall|j: int|
                    0 <= j < old(self).subscribe@.len() && (#[trigger] old(self).subscribe@[j]).0
                        == key ==> {
                        let os = old(self).subscribe@[j].1;
                        let ns = final(self).subscribe@[j].1;
                        &&& ns.ex == os.ex
                        &&& ns.last_sync == os.last_sync
                        &&& ns.sub == os.sub
                        &&& ns.acked == os.acked
                        &&& ns.handlers == os.handlers
                        &&& ns.value is None
                        &&& if os.sub {
                            &&& final(self).output_events@.len() == old(self).output_events@.len()
                                + 1 + os.handlers@.len()
                            &&& forall|h: int|
                                0 <= h < os.handlers@.len() ==> is_changed(
                                    #[trigger] final(self).output_events@[old(self).output_events@.len() + 1 + h],
                                    os.handlers@[h].1,
                                    os.handlers@[h].0,
                                    key,
                                    None,
                                    version,
                                    source,
                                )
                        } else {
                            final(self).output_events@.len() == old(self).output_events@.len() + 1
                        }
                    }
            },
    {
        match event {
            SimpleLocalEvent::SetAck(_req_id, key, version, success) => {
                if success {
                    match index_of_key(&self.data, key) {
                        Some(i) => {
                            if self.data[i].1.version == version {
                                let mut pair = self.data.remove(i);
                                pair.1.acked = true;
                                self.data.insert(i, pair);
                            }
                        },
                        None => {},
                    }
                }
            },
            SimpleLocalEvent::GetAck(req_id, _key, value) => {
                match index_of_key(&self.get_queue, req_id) {
                    Some(i) => {
                        let entry = self.get_queue.remove(i);
                        self.output_events.push_back(
                            LocalStorageAction::LocalOnGet(
                                entry.1.service_id,
                                entry.1.uuid,
                                entry.1.key,
                                Ok(value),
                            ),
                        );
                    },
                    None => {},
                }
            },
            SimpleLocalEvent::DelAck(_req_id, key, version) => {
                match index_of_key(&self.data, key) {
                    Some(i) => {
                        let landed = match version {
                            Some(dv) => self.data[i].1.version >= dv,
                            None => true,
                        };
                        if landed {
                            let mut pair = self.data.remove(i);
                            pair.1.acked = true;
                            self.data.insert(i, pair);
                        }
                    },
                    None => {},
                }
            },
            SimpleLocalEvent::SubAck(_req_id, key) => {
                match index_of_key(&self.subscribe, key) {
                    Some(i) => {
                        if self.subscribe[i].1.sub {
                            let mut pair = self.subscribe.remove(i);
                            pair.1.acked = true;
                            self.subscribe.insert(i, pair);
                        }
                    },
                    None => {},
                }
            },
            SimpleLocalEvent::UnsubAck(_req_id, key, success) => {
                if success {
                    match index_of_key(&self.subscribe, key) {
                        Some(i) => {
                            if !self.subscribe[i].1.sub {
                                let mut pair = self.subscribe.remove(i);
                                pair.1.acked = true;
                                self.subscribe.insert(i, pair);
                            }
                        },
                        None => {},
                    }
                }
            },
            SimpleLocalEvent::OnKeySet(req_id, key, value, version, source) => {
                self.notify_key_set(from, req_id, key, value, version, source);
            },
            SimpleLocalEvent::OnKeyDel(req_id, key, version, source) => {
                self.notify_key_del(from, req_id, key, version, source);
            },
        }
    }


    /// Cache and fan out one remote write notification; see `on_event`.
    #[verifier::rlimit(50)]
    fn notify_key_set(&mut self, from: u32, req_id: ReqId, key: KeyId, value: ValueType, version: KeyVersion, source: KeySource)
        requires
            old(self).wf(),
        ensures
            final(self).wf(),
            final(self).req_id_seed == old(self).req_id_seed,
            final(self).version_seed == old(self).version_seed,
            final(self).sync_each_ms == old(self).sync_each_ms,
            ({
            &&& final(self).data == old(self).data
            &&& final(self).get_queue == old(self).get_queue
            &&& final(self).subscribe@.len() == old(self).subscribe@.len()
            &&& forall|j: int|
                0 <= j < old(self).subscribe@.len() && old(self).subscribe@[j].0 != key
                    ==> #[trigger] final(self).subscribe@[j] == old(self).subscribe@[j]
            &&& forall|j: int|
                0 <= j < old(self).subscribe@.len() ==> (#[trigger] final(self).subscribe@[j]).0 == old(self).subscribe@[j].0
            &&& final(self).output_events@.len() > old(self).output_events@.len()
            &&& final(self).output_events@.subrange(0, old(self).output_events@.len() as int)
                == old(self).output_events@
            &&& final(self).output_events@[old(self).output_events@.len() as int]
                == LocalStorageAction::SendNet(
                SimpleRemoteEvent::OnKeySetAck(req_id),
                RouteRule::ToNode(from),
            )
            &&& !has_key(old(self).subscribe@, key) ==> final(self).output_events@.len()
                == old(self).output_events@.len() + 1
            &&& forall|j: int|
                0 <= j < old(self).subscribe@.len() && (#[trigger] old(self).subscribe@[j]).0
                    == key ==> {
                    let os = old(self).subscribe@[j].1;
                    let ns = final(self).subscribe@[j].1;
                    &&& ns.ex == os.ex
                    &&& ns.last_sync == os.last_sync
                    &&& ns.sub == os.sub
                    &&& ns.acked == os.acked
                    &&& ns.handlers == os.handlers
                    &&& ns.value matches Some(t) && t.0@ == value@ && t.1 == version && t.2
                        == source
                    &&& if os.sub {
                        &&& final(self).output_events@.len() == old(self).output_events@.len()
                            + 1 + os.handlers@.len()
                        &&& forall|h: int|
                            0 <= h < os.handlers@.len() ==> is_changed(
                                #[trigger] final(self).output_events@[old(self).output_events@.len() + 1 + h],
                                os.handlers@[h].1,
                                os.handlers@[h].0,
                                key,
                                Some(value@),
                                version,
                                source,
                            )
                    } else {
                        final(self).output_events@.len() == old(self).output_events@.len() + 1
                    }
                }
            }),
    {
        self.output_events.push_back(
            LocalStorageAction::SendNet(
                SimpleRemoteEvent::OnKeySetAck(req_id),
                RouteRule::ToNode(from),
            ),
        );
        let ghost base = self.output_events@;
        match index_of_key(&self.subscribe, key) {
            Some(i) => {
                let mut pair = self.subscribe.remove(i);
                let stored = value.clone();
                proof {
                    assert(stored@ =~= value@);
                }
                pair.1.value = Some((stored, version, source));
                if pair.1.sub {
                    let ghost frame = *self;
                    let mut h: usize = 0;
                    while h < pair.1.handlers.len()
                        invariant
                            h <= pair.1.handlers@.len(),
                            self.output_events@.len() == base.len() + h,
                            self.output_events@.subrange(0, base.len() as int) == base,
                            forall|m: int|
                                0 <= m < h ==> is_changed(
                                    #[trigger] self.output_events@[base.len() + m],
                                    pair.1.handlers@[m].1,
                                    pair.1.handlers@[m].0,
                                    key,
                                    Some(value@),
                                    version,
                                    source,
                                ),
                            pair.1.value matches Some(t) && t.0@ == value@,
                            self.data == frame.data,
                            self.subscribe == frame.subscribe,
                            self.get_queue == frame.get_queue,
                            self.req_id_seed == frame.req_id_seed,
                            self.version_seed == frame.version_seed,
                            self.sync_each_ms == frame.sync_each_ms,
                        decreases pair.1.handlers@.len() - h,
                    {
                        let hd = (pair.1.handlers[h].0, pair.1.handlers[h].1);
                        let fan = value.clone();
                        proof {
                            assert(fan@ =~= value@);
                        }
                        self.output_events.push_back(
                            LocalStorageAction::LocalOnChanged(
                                hd.1,
                                hd.0,
                                key,
                                Some(fan),
                                version,
                                source,
                            ),
                        );
                        proof {
                            assert(self.output_events@.subrange(0, base.len() as int)
                                =~= base);
                        }
                        h += 1;
                    }
                }
                let ghost gp = pair;
                self.subscribe.insert(i, pair);
                proof {
                    assert(self.subscribe@ =~= old(self).subscribe@.update(i as int, gp));
                    assert forall|j: int|
                        0 <= j < old(self).subscribe@.len() && (old(self).subscribe@[j]).0 == key implies j == i as int by {
                        assert(old(self).subscribe@[i as int].0 == key);
                    }
                    assert(self.output_events@.subrange(0, base.len() as int) == base);
                    let ol = old(self).output_events@.len() as int;
                    assert(self.output_events@[ol] == base[ol]);
                    assert(self.output_events@.subrange(0, ol) =~= old(self).output_events@);
                }
            },
            None => {
                proof {
                    assert(self.output_events@.subrange(
                        0,
                        old(self).output_events@.len() as int,
                    ) =~= old(self).output_events@);
                }
            },
        }
    }

    /// Clear and fan out one remote delete notification; see `on_event`.
    #[verifier::rlimit(50)]
    fn notify_key_del(&mut self, from: u32, req_id: ReqId, key: KeyId, version: KeyVersion, source: KeySource)
        requires
            old(self).wf(),
        ensures
            final(self).wf(),
            final(self).req_id_seed == old(self).req_id_seed,
            final(self).version_seed == old(self).version_seed,
            final(self).sync_each_ms == old(self).sync_each_ms,
            ({
            &&& final(self).data == old(self).data
            &&& final(self).get_queue == old(self).get_queue
            &&& final(self).subscribe@.len() == old(self).subscribe@.len()
            &&& forall|j: int|
                0 <= j < old(self).subscribe@.len() && old(self).subscribe@[j].0 != key
                    ==> #[trigger] final(self).subscribe@[j] == old(self).subscribe@[j]
            &&& forall|j: int|
                0 <= j < old(self).subscribe@.len() ==> (#[trigger] final(self).subscribe@[j]).0 == old(self).subscribe@[j].0
            &&& final(self).output_events@.len() > old(self).output_events@.len()
            &&& final(self).output_events@.subrange(0, old(self).output_events@.len() as int)
                == old(self).output_events@
            &&& final(self).output_events@[old(self).output_events@.len() as int]
                == LocalStorageAction::SendNet(
                SimpleRemoteEvent::OnKeyDelAck(req_id),
                RouteRule::ToNode(from),
            )
            &&& !has_key(old(self).subscribe@, key) ==> final(self).output_events@.len()
                == old(self).output_events@.len() + 1
            &&& forall|j: int|
                0 <= j < old(self).subscribe@.len() && (#[trigger] old(self).subscribe@[j]).0
                    == key ==> {
                    let os = old(self).subscribe@[j].1;
                    let ns = final(self).subscribe@[j].1;
                    &&& ns.ex == os.ex
                    &&& ns.last_sync == os.last_sync
                    &&& ns.sub == os.sub
                    &&& ns.acked == os.acked
                    &&& ns.handlers == os.handlers
                    &&& ns.value is None
                    &&& if os.sub {
                        &&& final(self).output_events@.len() == old(self).output_events@.len()
                            + 1 + os.handlers@.len()
                        &&& forall|h: int|
                            0 <= h < os.handlers@.len() ==> is_changed(
                                #[trigger] final(self).output_events@[old(self).output_events@.len() + 1 + h],
                                os.handlers@[h].1,
                                os.handlers@[h].0,
                                key,
                                None,
                                version,
                                source,
                            )
                    } else {
                        final(self).output_events@.len() == old(self).output_events@.len() + 1
                    }
                }
            }),
    {
        self.output_events.push_back(
            LocalStorageAction::SendNet(
                SimpleRemoteEvent::OnKeyDelAck(req_id),
                RouteRule::ToNode(from),
            ),
        );
        let ghost base = self.output_events@;
        match index_of_key(&self.subscribe, key) {
            Some(i) => {
                let mut pair = self.subscribe.remove(i);
                pair.1.value = None;
                if pair.1.sub {
                    let ghost frame = *self;
                    let mut h: usize = 0;
                    while h < pair.1.handlers.len()
                        invariant
                            h <= pair.1.handlers@.len(),
                            self.output_events@.len() == base.len() + h,
                            self.output_events@.subrange(0, base.len() as int) == base,
                            forall|m: int|
                                0 <= m < h ==> is_changed(
                                    #[trigger] self.output_events@[base.len() + m],
                                    pair.1.handlers@[m].1,
                                    pair.1.handlers@[m].0,
                                    key,
                                    None,
                                    version,
                                    source,
                                ),
                            self.data == frame.data,
                            self.subscribe == frame.subscribe,
                            self.get_queue == frame.get_queue,
                            self.req_id_seed == frame.req_id_seed,
                            self.version_seed == frame.version_seed,
                            self.sync_each_ms == frame.sync_each_ms,
                        decreases pair.1.handlers@.len() - h,
                    {
                        let hd = (pair.1.handlers[h].0, pair.1.handlers[h].1);
                        self.output_events.push_back(
                            LocalStorageAction::LocalOnChanged(
                                hd.1,
                                hd.0,
                                key,
                                None,
                                version,
                                source,
                            ),
                        );
                        proof {
                            assert(self.output_events@.subrange(0, base.len() as int)
                                =~= base);
                        }
                        h += 1;
                    }
                }
                let ghost gp = pair;
                self.subscribe.insert(i, pair);
                proof {
                    assert(self.subscribe@ =~= old(self).subscribe@.update(i as int, gp));
                    assert forall|j: int|
                        0 <= j < old(self).subscribe@.len() && (old(self).subscribe@[j]).0 == key implies j == i as int by {
                        assert(old(self).subscribe@[i as int].0 == key);
                    }
                    assert(self.output_events@.subrange(0, base.len() as int) == base);
                    let ol = old(self).output_events@.len() as int;
                    assert(self.output_events@[ol] == base[ol]);
                    assert(self.output_events@.subrange(0, ol) =~= old(self).output_events@);
                }
            },
            None => {
                proof {
                    assert(self.output_events@.subrange(
                        0,
                        old(self).output_events@.len() as int,
                    ) =~= old(self).output_events@);
                }
            },
        }
    }

    /// Drain the next pending action, oldest first.
    pub fn pop_action(&mut self) -> (r: Option<LocalStorageAction>)
        ensures
            old(self).output_events@.len() == 0 ==> r is None && final(self).output_events@
                == old(self).output_events@,
            old(self).output_events@.len() > 0 ==> {
                &&& r == Some(old(self).output_events@[0])
                &&& final(self).output_events@ == old(self).output_events@.drop_first()
            },
            final(self).req_id_seed == old(self).req_id_seed,
            final(self).version_seed == old(self).version_seed,
            final(self).sync_each_ms == old(self).sync_each_ms,
            final(self).data == old(self).data,
            final(self).subscribe == old(self).subscribe,
            final(self).get_queue == old(self).get_queue,
            old(self).wf() ==> final(self).wf(),
    {
        self.output_events.pop_front()
    }
}

} // verus!
