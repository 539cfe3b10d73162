//! The caller-owned registry: topics, endpoints, matching and delivery.
//!
//! A [`Node`] owns every topic, publisher and subscription it created,
//! together with the set of [`MatchRecord`]s — one per (publisher,
//! subscription) pair on the same topic whose policy sets resolve as
//! compatible — and a side channel of per-peer delivery failures.
//! Publishing pushes a sample into the publisher's own history buffer and
//! into the buffer of every matched subscription, applying the resolved
//! reliability semantics; reading drains a subscription's buffer through
//! the pull ([`Node::take`]) or push ([`Node::poll_next`]) interface.

use vstd::prelude::*;
use vstd::seq_lib::group_filter_ensures;
use crate::qos::{QosPolicySet, Reliability};
use crate::resolver::{
    compatible, durability_level, durability_rank, effective_qos, resolve, Compatibility,
};
use crate::monitor::{alive_at, deadline_met_at, deadline_status, liveliness_status, DeadlineStatus, LivelinessStatus};
use crate::history::{
    accepts, after_write, after_writes, is_expired, lemma_after_write_elements,
    lemma_after_writes_push, sample_expired, lemma_filter_push,
    lemma_live_view_identity, live_view, take_rest, take_result,
    HistoryBuffer, Sample,
};

verus! {

/// Resource bound used for a publisher's own `KeepAll` buffer.
pub const PUBLISHER_CAPACITY: usize = usize::MAX;

/// A named, typed channel, immutable once created.
#[derive(Debug)]
pub struct Topic {
    pub id: u64,
    pub namespace: String,
    pub name: String,
    pub message_type: String,
    pub qos: QosPolicySet,
}

/// A writing endpoint: owns one history buffer for retained samples.
#[derive(Debug)]
pub struct Publisher {
    pub id: u64,
    pub topic_id: u64,
    pub qos: QosPolicySet,
    pub buffer: HistoryBuffer,
    /// Sequence number the next sample will carry.
    pub next_sequence: u64,
    /// Timestamp of the most recent write (ms); creation time before any.
    pub last_write: u64,
    /// Timestamp of the most recent liveliness assertion (ms).
    pub last_assert: u64,
}

/// A reading endpoint: owns one history buffer filled by delivery.
#[derive(Debug)]
pub struct Subscription {
    pub id: u64,
    pub topic_id: u64,
    pub qos: QosPolicySet,
    pub buffer: HistoryBuffer,
    /// Edge-triggered readiness: set on each empty-to-non-empty
    /// transition of the buffer, cleared by [`Node::take_ready`].
    pub ready: bool,
    /// Timestamp of the most recent accepted delivery (ms); creation time
    /// before any.
    pub last_arrival: u64,
}

/// One matched (publisher, subscription) pair with the effective policy
/// set resolved for it.  Exists exactly while both endpoints are alive
/// and mutually compatible.
#[derive(Clone, Copy, PartialEq, Eq, Structural, Debug)]
pub struct MatchRecord {
    pub publisher_id: u64,
    pub subscription_id: u64,
    pub topic_id: u64,
    pub effective: QosPolicySet,
}

/// Out-of-band record of one reliable delivery that exceeded its blocking
/// bound for one peer: the peer's buffer could not accept the sample
/// within `max_blocking_time`.
#[derive(Clone, Copy, PartialEq, Eq, Structural, Debug)]
pub struct DeliveryFailure {
    pub publisher_id: u64,
    pub subscription_id: u64,
}

/// Creation-time configuration errors: these fail fast and are never
/// retried.
#[derive(Clone, Copy, PartialEq, Eq, Structural, Debug)]
pub enum ConfigError {
    /// Malformed policy set (`KeepLast` depth of 0).
    InvalidQos,
    /// Empty topic name or type name.
    InvalidName,
    /// The referenced topic does not exist on this node.
    UnknownTopic,
}

/// Operating on an endpoint this node does not hold (destroyed, or never
/// created here); fatal to that call only.
#[derive(Clone, Copy, PartialEq, Eq, Structural, Debug)]
pub enum EndpointError {
    EndpointDestroyed,
}

/// The caller-owned registry of topics, endpoints and match records.
#[derive(Debug)]
pub struct Node {
    pub next_id: u64,
    pub topics: Vec<Topic>,
    pub publishers: Vec<Publisher>,
    pub subscriptions: Vec<Subscription>,
    pub matches: Vec<MatchRecord>,
    /// Side channel for per-peer reliable delivery failures, oldest
    /// first; drained by [`Node::take_delivery_failure`].
    pub delivery_failures: Vec<DeliveryFailure>,
}

/// Saturating successor, used for id and sequence counters.
pub open spec fn bump(n: u64) -> u64 {
    if n < u64::MAX {
        (n + 1) as u64
    } else {
        n
    }
}

/// The records a newly created publisher gains: one per existing
/// subscription on the same topic whose requested policies are
/// compatible with the offer, in subscription order.
pub open spec fn matches_for_publisher(
    pid: u64,
    tid: u64,
    offered: QosPolicySet,
    subs: Seq<Subscription>,
) -> Seq<MatchRecord>
    decreases subs.len(),
{
    if subs.len() == 0 {
        Seq::empty()
    } else {
        matches_for_publisher(pid, tid, offered, subs.drop_last()) + ({
            let s = subs.last();
            if s.topic_id == tid && compatible(offered, s.qos) {
                seq![
                    MatchRecord {
                        publisher_id: pid,
                        subscription_id: s.id,
                        topic_id: tid,
                        effective: effective_qos(offered, s.qos),
                    },
                ]
            } else {
                Seq::empty()
            }
        })
    }
}

/// The records a newly created subscription gains: one per existing
/// publisher on the same topic whose offered policies satisfy the
/// request, in publisher order.
pub open spec fn matches_for_subscription(
    sid: u64,
    tid: u64,
    requested: QosPolicySet,
    pubs: Seq<Publisher>,
) -> Seq<MatchRecord>
    decreases pubs.len(),
{
    if pubs.len() == 0 {
        Seq::empty()
    } else {
        matches_for_subscription(sid, tid, requested, pubs.drop_last()) + ({
            let p = pubs.last();
            if p.topic_id == tid && compatible(p.qos, requested) {
                seq![
                    MatchRecord {
                        publisher_id: p.id,
                        subscription_id: sid,
                        topic_id: tid,
                        effective: effective_qos(p.qos, requested),
                    },
                ]
            } else {
                Seq::empty()
            }
        })
    }
}

/// Soundness of the records created for one new subscription: every
/// record pairs an existing co-topical compatible publisher with the new
/// subscription and stores the resolved effective policies.
pub proof fn lemma_matches_for_subscription_sound(
    sid: u64,
    tid: u64,
    requested: QosPolicySet,
    pubs: Seq<Publisher>,
)
    ensures
        ({
            let rs = matches_for_subscription(sid, tid, requested, pubs);
            &&& forall|k: int|
                0 <= k < rs.len() ==> (#[trigger] rs[k]).subscription_id == sid && rs[k].topic_id
                    == tid
            &&& forall|k: int|
                0 <= k < rs.len() ==> exists|j: int|
                    0 <= j < pubs.len() && (#[trigger] pubs[j]).id == (
                    #[trigger] rs[k]).publisher_id && pubs[j].topic_id == tid && compatible(
                        pubs[j].qos,
                        requested,
                    ) && rs[k].effective == effective_qos(pubs[j].qos, requested)
        }),
    decreases pubs.len(),
{
    let rs = matches_for_subscription(sid, tid, requested, pubs);
    if pubs.len() == 0 {
    } else {
        let front = pubs.drop_last();
        let p = pubs.last();
        lemma_matches_for_subscription_sound(sid, tid, requested, front);
        let rs0 = matches_for_subscription(sid, tid, requested, front);
        assert forall|k: int| 0 <= k < rs.len() implies exists|j: int|
            0 <= j < pubs.len() && (#[trigger] pubs[j]).id == (#[trigger] rs[k]).publisher_id
                && pubs[j].topic_id == tid && compatible(pubs[j].qos, requested) && rs[k].effective
                == effective_qos(pubs[j].qos, requested) by {
            if k < rs0.len() {
                assert(rs[k] == rs0[k]);
                let j = choose|j: int|
                    0 <= j < front.len() && (#[trigger] front[j]).id == rs0[k].publisher_id
                        && front[j].topic_id == tid && compatible(front[j].qos, requested)
                        && rs0[k].effective == effective_qos(front[j].qos, requested);
                assert(pubs[j] == front[j]);
            } else {
                assert(p.topic_id == tid && compatible(p.qos, requested));
                assert(rs[k] == rs.last());
                assert(pubs[pubs.len() - 1] == p);
            }
        }
    }
}

/// Completeness: every existing co-topical compatible publisher gains a
/// record for the new subscription.
pub proof fn lemma_matches_for_subscription_complete(
    sid: u64,
    tid: u64,
    requested: QosPolicySet,
    pubs: Seq<Publisher>,
)
    ensures
        forall|j: int|
            0 <= j < pubs.len() && (#[trigger] pubs[j]).topic_id == tid && compatible(
                pubs[j].qos,
                requested,
            ) ==> exists|k: int|
                0 <= k < matches_for_subscription(sid, tid, requested, pubs).len() && (
                #[trigger] matches_for_subscription(sid, tid, requested, pubs)[k]).publisher_id
                    == pubs[j].id,
    decreases pubs.len(),
{
    let rs = matches_for_subscription(sid, tid, requested, pubs);
    if pubs.len() == 0 {
    } else {
        let front = pubs.drop_last();
        let p = pubs.last();
        lemma_matches_for_subscription_complete(sid, tid, requested, front);
        let rs0 = matches_for_subscription(sid, tid, requested, front);
        assert forall|j: int|
            0 <= j < pubs.len() && (#[trigger] pubs[j]).topic_id == tid && compatible(
                pubs[j].qos,
                requested,
            ) implies exists|k: int| 0 <= k < rs.len() && (#[trigger] rs[k]).publisher_id
            == pubs[j].id by {
            if j < front.len() {
                assert(front[j] == pubs[j]);
                let k = choose|k: int|
                    0 <= k < rs0.len() && (#[trigger] rs0[k]).publisher_id == front[j].id;
                assert(rs[k] == rs0[k]);
            } else {
                assert(rs.last().publisher_id == p.id);
                assert(rs[rs.len() - 1].publisher_id == pubs[j].id);
            }
        }
    }
}

/// Pair-uniqueness: with distinct publisher ids no pair is recorded
/// twice for the new subscription.
pub proof fn lemma_matches_for_subscription_distinct(
    sid: u64,
    tid: u64,
    requested: QosPolicySet,
    pubs: Seq<Publisher>,
)
    requires
        forall|j1: int, j2: int|
            #![trigger pubs[j1], pubs[j2]]
            0 <= j1 < j2 < pubs.len() ==> pubs[j1].id != pubs[j2].id,
    ensures
        ({
            let rs = matches_for_subscription(sid, tid, requested, pubs);
            forall|k1: int, k2: int|
                #![trigger rs[k1], rs[k2]]
                0 <= k1 < k2 < rs.len() ==> rs[k1].publisher_id != rs[k2].publisher_id
        }),
    decreases pubs.len(),
{
    let rs = matches_for_subscription(sid, tid, requested, pubs);
    if pubs.len() == 0 {
    } else {
        let front = pubs.drop_last();
        let p = pubs.last();
        lemma_matches_for_subscription_distinct(sid, tid, requested, front);
        lemma_matches_for_subscription_sound(sid, tid, requested, front);
        let rs0 = matches_for_subscription(sid, tid, requested, front);
        assert forall|k1: int, k2: int|
            #![trigger rs[k1], rs[k2]]
            0 <= k1 < k2 < rs.len() implies rs[k1].publisher_id != rs[k2].publisher_id by {
            if k2 < rs0.len() {
                assert(rs[k1] == rs0[k1] && rs[k2] == rs0[k2]);
            } else {
                assert(rs[k2] == rs.last());
                assert(rs[k1] == rs0[k1]);
                let j = choose|j: int|
                    0 <= j < front.len() && (#[trigger] front[j]).id == rs0[k1].publisher_id
                        && front[j].topic_id == tid && compatible(front[j].qos, requested)
                        && rs0[k1].effective == effective_qos(front[j].qos, requested);
                assert(pubs[j] == front[j]);
                assert(pubs[j].id != p.id);
            }
        }
    }
}

/// Soundness of the records created for one new publisher: every
/// record pairs the new publisher with an existing co-topical compatible
/// subscription and stores the resolved effective policies.
pub proof fn lemma_matches_for_publisher_sound(
    pid: u64,
    tid: u64,
    offered: QosPolicySet,
    subs: Seq<Subscription>,
)
    ensures
        ({
            let rs = matches_for_publisher(pid, tid, offered, subs);
            &&& forall|k: int|
                0 <= k < rs.len() ==> (#[trigger] rs[k]).publisher_id == pid && rs[k].topic_id
                    == tid
            &&& forall|k: int|
                0 <= k < rs.len() ==> exists|j: int|
                    0 <= j < subs.len() && (#[trigger] subs[j]).id == (
                    #[trigger] rs[k]).subscription_id && subs[j].topic_id == tid && compatible(
                        offered,
                        subs[j].qos,
                    ) && rs[k].effective == effective_qos(offered, subs[j].qos)
        }),
    decreases subs.len(),
{
    let rs = matches_for_publisher(pid, tid, offered, subs);
    if subs.len() == 0 {
    } else {
        let front = subs.drop_last();
        let s = subs.last();
        lemma_matches_for_publisher_sound(pid, tid, offered, front);
        let rs0 = matches_for_publisher(pid, tid, offered, front);
        assert forall|k: int| 0 <= k < rs.len() implies exists|j: int|
            0 <= j < subs.len() && (#[trigger] subs[j]).id == (#[trigger] rs[k]).subscription_id
                && subs[j].topic_id == tid && compatible(offered, subs[j].qos) && rs[k].effective
                == effective_qos(offered, subs[j].qos) by {
            if k < rs0.len() {
                assert(rs[k] == rs0[k]);
                let j = choose|j: int|
                    0 <= j < front.len() && (#[trigger] front[j]).id == rs0[k].subscription_id
                        && front[j].topic_id == tid && compatible(offered, front[j].qos)
                        && rs0[k].effective == effective_qos(offered, front[j].qos);
                assert(subs[j] == front[j]);
            } else {
                assert(s.topic_id == tid && compatible(offered, s.qos));
                assert(rs[k] == rs.last());
                assert(subs[subs.len() - 1] == s);
            }
        }
    }
}

/// Completeness: every existing co-topical compatible subscription gains
/// a record for the new publisher.
pub proof fn lemma_matches_for_publisher_complete(
    pid: u64,
    tid: u64,
    offered: QosPolicySet,
    subs: Seq<Subscription>,
)
    ensures
        forall|j: int|
            0 <= j < subs.len() && (#[trigger] subs[j]).topic_id == tid && compatible(
                offered,
                subs[j].qos,
            ) ==> exists|k: int|
                0 <= k < matches_for_publisher(pid, tid, offered, subs).len() && (
                #[trigger] matches_for_publisher(pid, tid, offered, subs)[k]).subscription_id
                    == subs[j].id,
    decreases subs.len(),
{
    let rs = matches_for_publisher(pid, tid, offered, subs);
    if subs.len() == 0 {
    } else {
        let front = subs.drop_last();
        let s = subs.last();
        lemma_matches_for_publisher_complete(pid, tid, offered, front);
        let rs0 = matches_for_publisher(pid, tid, offered, front);
        assert forall|j: int|
            0 <= j < subs.len() && (#[trigger] subs[j]).topic_id == tid && compatible(
                offered,
                subs[j].qos,
            ) implies exists|k: int| 0 <= k < rs.len() && (#[trigger] rs[k]).subscription_id
            == subs[j].id by {
            if j < front.len() {
                assert(front[j] == subs[j]);
                let k = choose|k: int|
                    0 <= k < rs0.len() && (#[trigger] rs0[k]).subscription_id == front[j].id;
                assert(rs[k] == rs0[k]);
            } else {
                assert(rs.last().subscription_id == s.id);
                assert(rs[rs.len() - 1].subscription_id == subs[j].id);
            }
        }
    }
}

/// Pair-uniqueness: with distinct subscription ids no pair is recorded
/// twice for the new publisher.
pub proof fn lemma_matches_for_publisher_distinct(
    pid: u64,
    tid: u64,
    offered: QosPolicySet,
    subs: Seq<Subscription>,
)
    requires
        forall|j1: int, j2: int|
            #![trigger subs[j1], subs[j2]]
            0 <= j1 < j2 < subs.len() ==> subs[j1].id != subs[j2].id,
    ensures
        ({
            let rs = matches_for_publisher(pid, tid, offered, subs);
            forall|k1: int, k2: int|
                #![trigger rs[k1], rs[k2]]
                0 <= k1 < k2 < rs.len() ==> rs[k1].subscription_id != rs[k2].subscription_id
        }),
    decreases subs.len(),
{
    let rs = matches_for_publisher(pid, tid, offered, subs);
    if subs.len() == 0 {
    } else {
        let front = subs.drop_last();
        let s = subs.last();
        lemma_matches_for_publisher_distinct(pid, tid, offered, front);
        lemma_matches_for_publisher_sound(pid, tid, offered, front);
        let rs0 = matches_for_publisher(pid, tid, offered, front);
        assert forall|k1: int, k2: int|
            #![trigger rs[k1], rs[k2]]
            0 <= k1 < k2 < rs.len() implies rs[k1].subscription_id != rs[k2].subscription_id by {
            if k2 < rs0.len() {
                assert(rs[k1] == rs0[k1] && rs[k2] == rs0[k2]);
            } else {
                assert(rs[k2] == rs.last());
                assert(rs[k1] == rs0[k1]);
                let j = choose|j: int|
                    0 <= j < front.len() && (#[trigger] front[j]).id == rs0[k1].subscription_id
                        && front[j].topic_id == tid && compatible(offered, front[j].qos)
                        && rs0[k1].effective == effective_qos(offered, front[j].qos);
                assert(subs[j] == front[j]);
                assert(subs[j].id != s.id);
            }
        }
    }
}


/// The records referencing an endpoint, in order.
pub open spec fn matches_involving(ms: Seq<MatchRecord>, eid: u64) -> Seq<MatchRecord> {
    ms.filter(|m: MatchRecord| m.publisher_id == eid || m.subscription_id == eid)
}

/// The records left after an endpoint is gone.
pub open spec fn matches_without(ms: Seq<MatchRecord>, eid: u64) -> Seq<MatchRecord> {
    ms.filter(|m: MatchRecord| m.publisher_id != eid && m.subscription_id != eid)
}

/// Filtering keeps (publisher, subscription) pairs distinct.
pub proof fn lemma_filter_matches_distinct(ms: Seq<MatchRecord>, pred: spec_fn(MatchRecord) -> bool)
    requires
        forall|k1: int, k2: int|
            #![trigger ms[k1], ms[k2]]
            0 <= k1 < k2 < ms.len() ==> !(ms[k1].publisher_id == ms[k2].publisher_id
                && ms[k1].subscription_id == ms[k2].subscription_id),
    ensures
        ({
            let fs = ms.filter(pred);
            forall|k1: int, k2: int|
                #![trigger fs[k1], fs[k2]]
                0 <= k1 < k2 < fs.len() ==> !(fs[k1].publisher_id == fs[k2].publisher_id
                    && fs[k1].subscription_id == fs[k2].subscription_id)
        }),
    decreases ms.len(),
{
    broadcast use group_filter_ensures;

    reveal(Seq::filter);
    let fs = ms.filter(pred);
    if ms.len() > 0 {
        let front = ms.drop_last();
        let m = ms.last();
        lemma_filter_matches_distinct(front, pred);
        let fs0 = front.filter(pred);
        assert forall|k1: int, k2: int|
            #![trigger fs[k1], fs[k2]]
            0 <= k1 < k2 < fs.len() implies !(fs[k1].publisher_id == fs[k2].publisher_id
            && fs[k1].subscription_id == fs[k2].subscription_id) by {
            if k2 < fs0.len() {
                assert(fs[k1] == fs0[k1] && fs[k2] == fs0[k2]);
            } else {
                assert(fs[k2] == m);
                assert(fs[k1] == fs0[k1]);
                assert(fs0.contains(fs0[k1]));
                front.lemma_filter_contains_rev(pred, fs0[k1]);
                let j = choose|j: int| 0 <= j < front.len() && front[j] == fs0[k1];
                assert(ms[j] == fs0[k1]);
                assert(!(ms[j].publisher_id == m.publisher_id && ms[j].subscription_id
                    == m.subscription_id));
            }
        }
    }
}

/// The per-peer effect of delivering sample `x` to one matched
/// subscription at `now`: the sample is offered to the buffer under the
/// subscription's own history policy, readiness fires on the
/// empty-to-non-empty transition, and an accepted delivery stamps the
/// arrival time.
pub open spec fn delivered_to(s_old: Subscription, s_new: Subscription, x: Sample, now: u64) -> bool {
    let lv = live_view(s_old.buffer.entries@, s_old.buffer.lifespan, now);
    let acc = accepts(s_old.buffer.history, s_old.buffer.capacity, lv);
    &&& s_new.id == s_old.id
    &&& s_new.topic_id == s_old.topic_id
    &&& s_new.qos == s_old.qos
    &&& s_new.buffer.history == s_old.buffer.history
    &&& s_new.buffer.lifespan == s_old.buffer.lifespan
    &&& s_new.buffer.capacity == s_old.buffer.capacity
    &&& s_new.buffer.entries@ == after_write(s_old.buffer.history, s_old.buffer.capacity, lv, x)
    &&& s_new.ready == (s_old.ready || (acc && lv.len() == 0))
    &&& s_new.last_arrival == (if acc { now } else { s_old.last_arrival })
}

/// The samples a late-joining subscription receives from one
/// publisher's retained history: the publisher's entries not expired
/// under either side's lifespan at `now`, in arrival order.
pub open spec fn retained_prefix(
    entries: Seq<Sample>,
    pub_lifespan: u64,
    sub_lifespan: u64,
    now: u64,
) -> Seq<Sample> {
    entries.filter(
        |e: Sample| !is_expired(e, pub_lifespan, now) && !is_expired(e, sub_lifespan, now),
    )
}

pub proof fn lemma_retained_prefix_empty(pub_lifespan: u64, sub_lifespan: u64, now: u64)
    ensures
        retained_prefix(Seq::empty(), pub_lifespan, sub_lifespan, now) == Seq::<Sample>::empty(),
{
    reveal(Seq::filter);
}

pub proof fn lemma_retained_prefix_push(
    entries: Seq<Sample>,
    pub_lifespan: u64,
    sub_lifespan: u64,
    now: u64,
    x: Sample,
)
    ensures
        retained_prefix(entries.push(x), pub_lifespan, sub_lifespan, now) == (if !is_expired(
            x,
            pub_lifespan,
            now,
        ) && !is_expired(x, sub_lifespan, now) {
            retained_prefix(entries, pub_lifespan, sub_lifespan, now).push(x)
        } else {
            retained_prefix(entries, pub_lifespan, sub_lifespan, now)
        }),
{
    reveal(Seq::filter);
    assert(entries.push(x).drop_last() =~= entries);
    assert(entries.push(x).last() == x);
}

/// One publisher's contribution to a late joiner requesting `requested`
/// on topic `tid`: its doubly-live retained history when the pair is
/// compatible with effective durability of at least TransientLocal,
/// nothing otherwise (volatile pairs start from an empty buffer).
pub open spec fn late_contribution(
    p: Publisher,
    tid: u64,
    requested: QosPolicySet,
    now: u64,
) -> Seq<Sample> {
    if p.topic_id == tid && compatible(p.qos, requested) && durability_level(
        effective_qos(p.qos, requested).durability,
    ) >= 1 {
        retained_prefix(p.buffer.entries@, p.buffer.lifespan, requested.lifespan_duration, now)
    } else {
        Seq::empty()
    }
}

/// The whole retained history a late-joining subscription receives: the
/// contributions of the existing publishers, in publisher order.
pub open spec fn late_history(
    pubs: Seq<Publisher>,
    tid: u64,
    requested: QosPolicySet,
    now: u64,
) -> Seq<Sample>
    decreases pubs.len(),
{
    if pubs.len() == 0 {
        Seq::empty()
    } else {
        late_history(pubs.drop_last(), tid, requested, now) + late_contribution(
            pubs.last(),
            tid,
            requested,
            now,
        )
    }
}

/// Law: a sample delivered to a matched subscription whose buffer held
/// nothing readable is taken exactly once — the first pull returns it
/// and a second pull before another write returns nothing.
pub proof fn lemma_publish_take_round_trip(
    s0: Subscription,
    s1: Subscription,
    x: Sample,
    now: u64,
)
    requires
        delivered_to(s0, s1, x, now),
        s0.buffer.wf(),
        live_view(s0.buffer.entries@, s0.buffer.lifespan, now).len() == 0,
        accepts(
            s0.buffer.history,
            s0.buffer.capacity,
            live_view(s0.buffer.entries@, s0.buffer.lifespan, now),
        ),
        !is_expired(x, s0.buffer.lifespan, now),
    ensures
        take_result(live_view(s1.buffer.entries@, s1.buffer.lifespan, now)) == Some(x),
        take_result(
            live_view(
                take_rest(live_view(s1.buffer.entries@, s1.buffer.lifespan, now)),
                s1.buffer.lifespan,
                now,
            ),
        ) is None,
{
    let lv = live_view(s0.buffer.entries@, s0.buffer.lifespan, now);
    assert(s1.buffer.entries@ == lv.push(x));
    crate::history::lemma_live_view_identity(lv, s0.buffer.lifespan, now);
    assert(lv =~= Seq::<Sample>::empty());
    crate::history::lemma_take_exactly_once(x, s0.buffer.lifespan, now);
    assert(s1.buffer.entries@ == Seq::<Sample>::empty().push(x));
}

/// Law: delivery is multicast over unshared buffers: in one publish,
/// each matched subscription's new buffer is a function of its own old
/// buffer and the sample alone, and each accepting subscription holds
/// the sample as its newest readable entry under its own history policy.
pub proof fn lemma_multicast_delivery(
    a0: Subscription,
    a1: Subscription,
    b0: Subscription,
    b1: Subscription,
    x: Sample,
    now: u64,
)
    requires
        delivered_to(a0, a1, x, now),
        delivered_to(b0, b1, x, now),
        a0.buffer.wf(),
        b0.buffer.wf(),
        accepts(
            a0.buffer.history,
            a0.buffer.capacity,
            live_view(a0.buffer.entries@, a0.buffer.lifespan, now),
        ),
        accepts(
            b0.buffer.history,
            b0.buffer.capacity,
            live_view(b0.buffer.entries@, b0.buffer.lifespan, now),
        ),
        !is_expired(x, a0.buffer.lifespan, now),
        !is_expired(x, b0.buffer.lifespan, now),
    ensures
        a1.buffer.entries@ == after_write(
            a0.buffer.history,
            a0.buffer.capacity,
            live_view(a0.buffer.entries@, a0.buffer.lifespan, now),
            x,
        ),
        b1.buffer.entries@ == after_write(
            b0.buffer.history,
            b0.buffer.capacity,
            live_view(b0.buffer.entries@, b0.buffer.lifespan, now),
            x,
        ),
        a1.buffer.entries@.last() == x,
        b1.buffer.entries@.last() == x,
        live_view(a1.buffer.entries@, a1.buffer.lifespan, now).contains(x),
        live_view(b1.buffer.entries@, b1.buffer.lifespan, now).contains(x),
{
    crate::history::lemma_lifespan_expiry(a1.buffer.entries@, a1.buffer.lifespan, now, x);
    crate::history::lemma_lifespan_expiry(b1.buffer.entries@, b1.buffer.lifespan, now, x);
    assert(a1.buffer.entries@.contains(x)) by {
        assert(a1.buffer.entries@.last() == x);
    }
    assert(b1.buffer.entries@.contains(x)) by {
        assert(b1.buffer.entries@.last() == x);
    }
}

impl Node {
    pub open spec fn has_topic(self, tid: u64) -> bool {
        exists|i: int| 0 <= i < self.topics@.len() && (#[trigger] self.topics@[i]).id == tid
    }

    pub open spec fn has_publisher(self, pid: u64) -> bool {
        exists|i: int|
            0 <= i < self.publishers@.len() && (#[trigger] self.publishers@[i]).id == pid
    }

    pub open spec fn has_subscription(self, sid: u64) -> bool {
        exists|i: int|
            0 <= i < self.subscriptions@.len() && (#[trigger] self.subscriptions@[i]).id == sid
    }

    /// A match record for the pair exists.
    pub open spec fn has_match(self, pid: u64, sid: u64) -> bool {
        exists|k: int|
            0 <= k < self.matches@.len() && (#[trigger] self.matches@[k]).publisher_id == pid
                && self.matches@[k].subscription_id == sid
    }

    /// Some record for the pair carries Reliable effective reliability;
    /// under [`Node::wf`] the pair has at most one record, so this is the
    /// pair's resolved reliability.
    pub open spec fn match_is_reliable(self, pid: u64, sid: u64) -> bool {
        exists|k: int|
            0 <= k < self.matches@.len() && (#[trigger] self.matches@[k]).publisher_id == pid
                && self.matches@[k].subscription_id == sid && self.matches@[k].effective.reliability
                matches Reliability::Reliable { .. }
    }

    /// A record is sound: it references a live publisher and a live
    /// subscription on its topic, the pair resolves as compatible, and
    /// the stored effective policy set is the resolved one.
    pub open spec fn match_ok(self, m: MatchRecord) -> bool {
        exists|pi: int, sj: int|
            0 <= pi < self.publishers@.len() && 0 <= sj < self.subscriptions@.len() && (
            #[trigger] self.publishers@[pi]).id == m.publisher_id && (
            #[trigger] self.subscriptions@[sj]).id == m.subscription_id
                && self.publishers@[pi].topic_id == m.topic_id && self.subscriptions@[sj].topic_id
                == m.topic_id && compatible(self.publishers@[pi].qos, self.subscriptions@[sj].qos)
                && m.effective == effective_qos(
                self.publishers@[pi].qos,
                self.subscriptions@[sj].qos,
            )
    }

    /// An endpoint's buffer is governed by its own policy set.
    pub open spec fn publisher_ok(self, p: Publisher) -> bool {
        &&& p.id < self.next_id
        &&& p.qos.valid()
        &&& p.buffer.wf()
        &&& p.buffer.history == p.qos.history
        &&& p.buffer.lifespan == p.qos.lifespan_duration
        &&& self.has_topic(p.topic_id)
    }

    pub open spec fn subscription_ok(self, s: Subscription) -> bool {
        &&& s.id < self.next_id
        &&& s.qos.valid()
        &&& s.buffer.wf()
        &&& s.buffer.history == s.qos.history
        &&& s.buffer.lifespan == s.qos.lifespan_duration
        &&& self.has_topic(s.topic_id)
    }

    /// Well-formedness: ids are unique, endpoints reference existing
    /// topics and own buffers governed by their policies, and the match
    /// set is exactly right — every record is sound ([`Node::match_ok`]),
    /// no pair is recorded twice, and every compatible co-topical pair is
    /// recorded.  The last three clauses are the matching engine's
    /// contract: no stale and no duplicate record, ever.
    pub open spec fn wf(self) -> bool {
        &&& forall|i: int|
            0 <= i < self.topics@.len() ==> (#[trigger] self.topics@[i]).id < self.next_id
                && self.topics@[i].qos.valid()
        &&& forall|i: int, j: int|
            #![trigger self.topics@[i], self.topics@[j]]
            0 <= i < j < self.topics@.len() ==> self.topics@[i].id != self.topics@[j].id
        &&& forall|i: int|
            0 <= i < self.publishers@.len() ==> self.publisher_ok(#[trigger] self.publishers@[i])
        &&& forall|i: int, j: int|
            #![trigger self.publishers@[i], self.publishers@[j]]
            0 <= i < j < self.publishers@.len() ==> self.publishers@[i].id
                != self.publishers@[j].id
        &&& forall|i: int|
            0 <= i < self.subscriptions@.len() ==> self.subscription_ok(
                #[trigger] self.subscriptions@[i],
            )
        &&& forall|i: int, j: int|
            #![trigger self.subscriptions@[i], self.subscriptions@[j]]
            0 <= i < j < self.subscriptions@.len() ==> self.subscriptions@[i].id
                != self.subscriptions@[j].id
        &&& forall|k: int|
            0 <= k < self.matches@.len() ==> self.match_ok(#[trigger] self.matches@[k])
        &&& forall|k1: int, k2: int|
            #![trigger self.matches@[k1], self.matches@[k2]]
            0 <= k1 < k2 < self.matches@.len() ==> !(self.matches@[k1].publisher_id
                == self.matches@[k2].publisher_id && self.matches@[k1].subscription_id
                == self.matches@[k2].subscription_id)
    }

    /// An empty registry.
    pub fn new() -> (n: Node)
        ensures
            n.wf(),
            n.next_id == 0,
            n.topics@.len() == 0,
            n.publishers@.len() == 0,
            n.subscriptions@.len() == 0,
            n.matches@.len() == 0,
            n.delivery_failures@.len() == 0,
    {
        Node {
            next_id: 0,
            topics: Vec::new(),
            publishers: Vec::new(),
            subscriptions: Vec::new(),
            matches: Vec::new(),
            delivery_failures: Vec::new(),
        }
    }

    fn find_topic(&self, tid: u64) -> (r: Option<usize>)
        ensures
            r matches Some(i) ==> i < self.topics@.len() && self.topics@[i as int].id == tid,
            r is None ==> !self.has_topic(tid),
    {
        let mut i: usize = 0;
        while i < self.topics.len()
            invariant
                i <= self.topics@.len(),
                forall|j: int| 0 <= j < i ==> (#[trigger] self.topics@[j]).id != tid,
            decreases self.topics@.len() - i,
        {
            if self.topics[i].id == tid {
                return Some(i);
            }
            i += 1;
        }
        None
    }

    /// Creates a topic identified by (namespace, name, type name) with
    /// the given default policy set.  Fails fast on an empty name or
    /// type name or an invalid policy set; returns the new topic's id.
    pub fn create_topic(
        &mut self,
        namespace: String,
        name: String,
        message_type: String,
        qos: QosPolicySet,
    ) -> (r: Result<u64, ConfigError>)
        requires
            old(self).wf(),
            old(self).next_id < u64::MAX,
        ensures
            final(self).wf(),
            name@.len() == 0 || message_type@.len() == 0 ==> r == Err::<u64, ConfigError>(
                ConfigError::InvalidName,
            ) && *final(self) == *old(self),
            name@.len() > 0 && message_type@.len() > 0 && !qos.valid() ==> r == Err::<
                u64,
                ConfigError,
            >(ConfigError::InvalidQos) && *final(self) == *old(self),
            name@.len() > 0 && message_type@.len() > 0 && qos.valid() ==> {
                &&& r == Ok::<u64, ConfigError>(old(self).next_id)
                &&& final(self).next_id == old(self).next_id + 1
                &&& final(self).topics@.len() == old(self).topics@.len() + 1
                &&& final(self).topics@.drop_last() == old(self).topics@
                &&& ({
                    let t = final(self).topics@.last();
                    t.id == old(self).next_id && t.namespace == namespace && t.name == name
                        && t.message_type == message_type && t.qos == qos
                })
                &&& final(self).publishers@ == old(self).publishers@
                &&& final(self).subscriptions@ == old(self).subscriptions@
                &&& final(self).matches@ == old(self).matches@
                &&& final(self).delivery_failures@ == old(self).delivery_failures@
            },
    {
        if name.as_str().is_empty() || message_type.as_str().is_empty() {
            return Err(ConfigError::InvalidName);
        }
        if !qos.is_valid() {
            return Err(ConfigError::InvalidQos);
        }
        let id = self.next_id;
        self.topics.push(Topic { id, namespace, name, message_type, qos });
        self.next_id = self.next_id + 1;
        proof {
            assert(self.topics@.drop_last() =~= old(self).topics@);
            assert forall|k: int| 0 <= k < self.matches@.len() implies self.match_ok(
                #[trigger] self.matches@[k],
            ) by {
                assert(old(self).match_ok(old(self).matches@[k]));
            }
            assert forall|i: int|
                0 <= i < self.publishers@.len() implies self.publisher_ok(
                #[trigger] self.publishers@[i],
            ) by {
                assert(old(self).publisher_ok(old(self).publishers@[i]));
                let ti = choose|ti: int|
                    0 <= ti < old(self).topics@.len() && (#[trigger] old(self).topics@[ti]).id
                        == old(self).publishers@[i].topic_id;
                assert(self.topics@[ti].id == self.publishers@[i].topic_id);
            }
            assert forall|i: int|
                0 <= i < self.subscriptions@.len() implies self.subscription_ok(
                #[trigger] self.subscriptions@[i],
            ) by {
                assert(old(self).subscription_ok(old(self).subscriptions@[i]));
                let ti = choose|ti: int|
                    0 <= ti < old(self).topics@.len() && (#[trigger] old(self).topics@[ti]).id
                        == old(self).subscriptions@[i].topic_id;
                assert(self.topics@[ti].id == self.subscriptions@[i].topic_id);
            }
        }
        Ok(id)
    }
    /// Creates a publisher on a topic, offering `qos` (or the topic's
    /// default when `None`).  Scans every existing subscription on the
    /// topic and materializes one match record per compatible pair.
    /// Fails fast on an unknown topic or an invalid policy set.
    pub fn create_publisher(
        &mut self,
        topic_id: u64,
        qos: Option<QosPolicySet>,
        now: u64,
    ) -> (r: Result<u64, ConfigError>)
        requires
            old(self).wf(),
            old(self).next_id < u64::MAX,
        ensures
            final(self).wf(),
            !old(self).has_topic(topic_id) ==> r == Err::<u64, ConfigError>(
                ConfigError::UnknownTopic,
            ) && *final(self) == *old(self),
            forall|ti: int|
                0 <= ti < old(self).topics@.len() && (#[trigger] old(self).topics@[ti]).id
                    == topic_id ==> ({
                    let q = if qos is Some {
                        qos->0
                    } else {
                        old(self).topics@[ti].qos
                    };
                    &&& !q.valid() ==> r == Err::<u64, ConfigError>(ConfigError::InvalidQos)
                        && *final(self) == *old(self)
                    &&& q.valid() ==> {
                        &&& r == Ok::<u64, ConfigError>(old(self).next_id)
                        &&& final(self).next_id == old(self).next_id + 1
                        &&& final(self).topics@ == old(self).topics@
                        &&& final(self).subscriptions@ == old(self).subscriptions@
                        &&& final(self).delivery_failures@ == old(self).delivery_failures@
                        &&& final(self).publishers@.len() == old(self).publishers@.len() + 1
                        &&& final(self).publishers@.drop_last() == old(self).publishers@
                        &&& ({
                            let p = final(self).publishers@.last();
                            p.id == old(self).next_id && p.topic_id == topic_id && p.qos == q
                                && p.buffer.entries@.len() == 0 && p.buffer.history == q.history
                                && p.buffer.lifespan == q.lifespan_duration && p.buffer.capacity
                                == PUBLISHER_CAPACITY && p.next_sequence == 1 && p.last_write
                                == now && p.last_assert == now
                        })
                        &&& final(self).matches@ == old(self).matches@ + matches_for_publisher(
                            old(self).next_id,
                            topic_id,
                            q,
                            old(self).subscriptions@,
                        )
                    }
                }),
    {
        let ti = match self.find_topic(topic_id) {
            Some(i) => i,
            None => {
                return Err(ConfigError::UnknownTopic);
            },
        };
        proof {
            assert forall|t2: int|
                0 <= t2 < old(self).topics@.len() && (#[trigger] old(self).topics@[t2]).id
                    == topic_id implies old(self).topics@[t2].qos == old(self).topics@[
                ti as int
            ].qos by {
                if t2 != ti as int {
                    assert(old(self).topics@[t2].id != old(self).topics@[ti as int].id);
                }
            }
        }
        let q = match qos {
            Some(given) => given,
            None => self.topics[ti].qos,
        };
        if !q.is_valid() {
            return Err(ConfigError::InvalidQos);
        }
        let id = self.next_id;
        self.next_id = self.next_id + 1;
        let buffer = HistoryBuffer::new(q.history, q.lifespan_duration, PUBLISHER_CAPACITY);
        self.publishers.push(
            Publisher {
                id,
                topic_id,
                qos: q,
                buffer,
                next_sequence: 1,
                last_write: now,
                last_assert: now,
            },
        );
        let ghost pnew = self.publishers@.last();
        let n = self.subscriptions.len();
        let mut sj: usize = 0;
        while sj < n
            invariant
                sj <= n,
                n == old(self).subscriptions@.len(),
                self.next_id == old(self).next_id + 1,
                id == old(self).next_id,
                self.topics@ == old(self).topics@,
                self.subscriptions@ == old(self).subscriptions@,
                self.delivery_failures@ == old(self).delivery_failures@,
                self.publishers@.len() == old(self).publishers@.len() + 1,
                self.publishers@.drop_last() == old(self).publishers@,
                self.publishers@.last() == pnew,
                pnew.id == id && pnew.topic_id == topic_id && pnew.qos == q,
                pnew.buffer.wf() && pnew.buffer.history == q.history && pnew.buffer.lifespan
                    == q.lifespan_duration && pnew.buffer.capacity == PUBLISHER_CAPACITY,
                pnew.buffer.entries@.len() == 0 && pnew.next_sequence == 1 && pnew.last_write
                    == now && pnew.last_assert == now,
                self.matches@ == old(self).matches@ + matches_for_publisher(
                    id,
                    topic_id,
                    q,
                    old(self).subscriptions@.subrange(0, sj as int),
                ),
            decreases n - sj,
        {
            let ghost prefix = old(self).subscriptions@.subrange(0, sj as int);
            if self.subscriptions[sj].topic_id == topic_id {
                let sq = self.subscriptions[sj].qos;
                match resolve(&q, &sq) {
                    Compatibility::Compatible { effective } => {
                        let sid = self.subscriptions[sj].id;
                        self.matches.push(
                            MatchRecord {
                                publisher_id: id,
                                subscription_id: sid,
                                topic_id,
                                effective,
                            },
                        );
                    },
                    Compatibility::Incompatible { .. } => {},
                }
            }
            sj += 1;
            proof {
                let next = old(self).subscriptions@.subrange(0, sj as int);
                assert(next.drop_last() =~= prefix);
                assert(next.last() == old(self).subscriptions@[sj - 1]);
                assert(self.matches@ =~= old(self).matches@ + matches_for_publisher(
                    id,
                    topic_id,
                    q,
                    next,
                ));
            }
        }
        proof {
            assert(old(self).subscriptions@.subrange(0, n as int) =~= old(self).subscriptions@);
            self.lemma_wf_after_publisher_creation(*old(self), id, topic_id, q);
        }
        Ok(id)
    }

    /// Re-establishes well-formedness after one publisher and its match
    /// records were appended.
    #[verifier::rlimit(100)]
    proof fn lemma_wf_after_publisher_creation(
        self,
        prior: Node,
        id: u64,
        topic_id: u64,
        q: QosPolicySet,
    )
        requires
            prior.wf(),
            prior.next_id < u64::MAX,
            q.valid(),
            prior.has_topic(topic_id),
            self.next_id == prior.next_id + 1,
            id == prior.next_id,
            self.topics@ == prior.topics@,
            self.subscriptions@ == prior.subscriptions@,
            self.publishers@.len() == prior.publishers@.len() + 1,
            self.publishers@.drop_last() == prior.publishers@,
            ({
                let p = self.publishers@.last();
                p.id == id && p.topic_id == topic_id && p.qos == q && p.buffer.wf()
                    && p.buffer.history == q.history && p.buffer.lifespan == q.lifespan_duration
            }),
            self.matches@ == prior.matches@ + matches_for_publisher(
                id,
                topic_id,
                q,
                prior.subscriptions@,
            ),
        ensures
            self.wf(),
    {
        let subs = prior.subscriptions@;
        let rs = matches_for_publisher(id, topic_id, q, subs);
        lemma_matches_for_publisher_sound(id, topic_id, q, subs);
        lemma_matches_for_publisher_distinct(id, topic_id, q, subs);
        let plen = prior.publishers@.len() as int;
        assert(forall|i: int| 0 <= i < plen ==> self.publishers@[i] == prior.publishers@[i]);
        // every old endpoint stays sound
        assert forall|i: int| 0 <= i < self.publishers@.len() implies self.publisher_ok(
            #[trigger] self.publishers@[i],
        ) by {
            if i < plen {
                assert(prior.publisher_ok(prior.publishers@[i]));
                let ti = choose|ti: int|
                    0 <= ti < prior.topics@.len() && (#[trigger] prior.topics@[ti]).id
                        == prior.publishers@[i].topic_id;
                assert(self.topics@[ti].id == self.publishers@[i].topic_id);
            } else {
                let ti = choose|ti: int|
                    0 <= ti < prior.topics@.len() && (#[trigger] prior.topics@[ti]).id == topic_id;
                assert(self.topics@[ti].id == self.publishers@.last().topic_id);
            }
        }
        assert forall|i: int| 0 <= i < self.subscriptions@.len() implies self.subscription_ok(
            #[trigger] self.subscriptions@[i],
        ) by {
            assert(prior.subscription_ok(prior.subscriptions@[i]));
            let ti = choose|ti: int|
                0 <= ti < prior.topics@.len() && (#[trigger] prior.topics@[ti]).id
                    == prior.subscriptions@[i].topic_id;
            assert(self.topics@[ti].id == self.subscriptions@[i].topic_id);
        }
        // publisher ids stay unique: the new id is above every prior id
        assert forall|i: int, j: int|
            #![trigger self.publishers@[i], self.publishers@[j]]
            0 <= i < j < self.publishers@.len() implies self.publishers@[i].id
            != self.publishers@[j].id by {
            if j < plen {
                assert(prior.publisher_ok(prior.publishers@[i]));
            } else {
                assert(prior.publisher_ok(prior.publishers@[i]));
                assert(self.publishers@[i].id < prior.next_id);
            }
        }
        // every record is sound: old ones by their old witnesses, new
        // ones pair the new publisher with the subscription the scan saw
        assert forall|k: int| 0 <= k < self.matches@.len() implies self.match_ok(
            #[trigger] self.matches@[k],
        ) by {
            if k < prior.matches@.len() {
                assert(self.matches@[k] == prior.matches@[k]);
                assert(prior.match_ok(prior.matches@[k]));
                let (pi, sj): (int, int) = choose|pi: int, sj: int|
                    0 <= pi < prior.publishers@.len() && 0 <= sj < prior.subscriptions@.len() && (
                    #[trigger] prior.publishers@[pi]).id == prior.matches@[k].publisher_id && (
                    #[trigger] prior.subscriptions@[sj]).id
                        == prior.matches@[k].subscription_id && prior.publishers@[pi].topic_id
                        == prior.matches@[k].topic_id && prior.subscriptions@[sj].topic_id
                        == prior.matches@[k].topic_id && compatible(
                        prior.publishers@[pi].qos,
                        prior.subscriptions@[sj].qos,
                    ) && prior.matches@[k].effective == effective_qos(
                        prior.publishers@[pi].qos,
                        prior.subscriptions@[sj].qos,
                    );
                assert(self.publishers@[pi] == prior.publishers@[pi]);
            } else {
                let kk = k - prior.matches@.len();
                assert(self.matches@[k] == rs[kk]);
                let j = choose|j: int|
                    0 <= j < subs.len() && (#[trigger] subs[j]).id == rs[kk].subscription_id
                        && subs[j].topic_id == topic_id && compatible(q, subs[j].qos)
                        && rs[kk].effective == effective_qos(q, subs[j].qos);
                assert(self.publishers@[plen].id == rs[kk].publisher_id);
                assert(self.subscriptions@[j].id == rs[kk].subscription_id);
            }
        }
        // no duplicate pair: old pairs reference prior publishers, whose
        // ids are below the new one; new pairs have distinct subscribers
        assert forall|k1: int, k2: int|
            #![trigger self.matches@[k1], self.matches@[k2]]
            0 <= k1 < k2 < self.matches@.len() implies !(self.matches@[k1].publisher_id
            == self.matches@[k2].publisher_id && self.matches@[k1].subscription_id
            == self.matches@[k2].subscription_id) by {
            let mlen = prior.matches@.len() as int;
            if k2 < mlen {
                assert(self.matches@[k1] == prior.matches@[k1]);
                assert(self.matches@[k2] == prior.matches@[k2]);
            } else if k1 < mlen {
                assert(self.matches@[k1] == prior.matches@[k1]);
                assert(prior.match_ok(prior.matches@[k1]));
                let (pi, sj): (int, int) = choose|pi: int, sj: int|
                    0 <= pi < prior.publishers@.len() && 0 <= sj < prior.subscriptions@.len() && (
                    #[trigger] prior.publishers@[pi]).id == prior.matches@[k1].publisher_id && (
                    #[trigger] prior.subscriptions@[sj]).id
                        == prior.matches@[k1].subscription_id;
                assert(prior.publisher_ok(prior.publishers@[pi]));
                assert(self.matches@[k1].publisher_id < prior.next_id);
                assert(self.matches@[k2] == rs[k2 - mlen]);
                assert(self.matches@[k2].publisher_id == id);
            } else {
                assert(self.matches@[k1] == rs[k1 - mlen]);
                assert(self.matches@[k2] == rs[k2 - mlen]);
            }
        }
    }

    /// Creates a subscription on a topic, requesting `qos` (or the
    /// topic's default when `None`); `resource_limit` is the
    /// implementation-defined capacity bound of its `KeepAll` buffer.
    /// Scans every existing publisher on the topic, materializes one
    /// match record per compatible pair, and — for pairs whose effective
    /// durability is TransientLocal or stronger — replays the
    /// publisher's retained, unexpired history into the new buffer;
    /// volatile pairs start empty.  Fails fast on an unknown topic or an
    /// invalid policy set.
    #[verifier::rlimit(100)]
    pub fn create_subscription(
        &mut self,
        topic_id: u64,
        qos: Option<QosPolicySet>,
        resource_limit: usize,
        now: u64,
    ) -> (r: Result<u64, ConfigError>)
        requires
            old(self).wf(),
            old(self).next_id < u64::MAX,
        ensures
            final(self).wf(),
            !old(self).has_topic(topic_id) ==> r == Err::<u64, ConfigError>(
                ConfigError::UnknownTopic,
            ) && *final(self) == *old(self),
            forall|ti: int|
                0 <= ti < old(self).topics@.len() && (#[trigger] old(self).topics@[ti]).id
                    == topic_id ==> ({
                    let q = if qos is Some {
                        qos->0
                    } else {
                        old(self).topics@[ti].qos
                    };
                    &&& !q.valid() ==> r == Err::<u64, ConfigError>(ConfigError::InvalidQos)
                        && *final(self) == *old(self)
                    &&& q.valid() ==> {
                        &&& r == Ok::<u64, ConfigError>(old(self).next_id)
                        &&& final(self).next_id == old(self).next_id + 1
                        &&& final(self).topics@ == old(self).topics@
                        &&& final(self).publishers@ == old(self).publishers@
                        &&& final(self).delivery_failures@ == old(self).delivery_failures@
                        &&& final(self).subscriptions@.len() == old(self).subscriptions@.len() + 1
                        &&& final(self).subscriptions@.drop_last() == old(self).subscriptions@
                        &&& ({
                            let sb = final(self).subscriptions@.last();
                            sb.id == old(self).next_id && sb.topic_id == topic_id && sb.qos == q
                                && sb.buffer.history == q.history && sb.buffer.lifespan
                                == q.lifespan_duration && sb.buffer.capacity == resource_limit
                                && sb.buffer.entries@ == after_writes(
                                q.history,
                                resource_limit,
                                Seq::empty(),
                                late_history(old(self).publishers@, topic_id, q, now),
                            ) && sb.ready == (sb.buffer.entries@.len() > 0) && sb.last_arrival
                                == now
                        })
                        &&& final(self).matches@ == old(self).matches@ + matches_for_subscription(
                            old(self).next_id,
                            topic_id,
                            q,
                            old(self).publishers@,
                        )
                    }
                }),
    {
        let ti = match self.find_topic(topic_id) {
            Some(i) => i,
            None => {
                return Err(ConfigError::UnknownTopic);
            },
        };
        proof {
            assert forall|t2: int|
                0 <= t2 < old(self).topics@.len() && (#[trigger] old(self).topics@[t2]).id
                    == topic_id implies old(self).topics@[t2].qos == old(self).topics@[
                ti as int
            ].qos by {
                if t2 != ti as int {
                    assert(old(self).topics@[t2].id != old(self).topics@[ti as int].id);
                }
            }
        }
        let q = match qos {
            Some(given) => given,
            None => self.topics[ti].qos,
        };
        if !q.is_valid() {
            return Err(ConfigError::InvalidQos);
        }
        let id = self.next_id;
        self.next_id = self.next_id + 1;
        let mut buffer = HistoryBuffer::new(q.history, q.lifespan_duration, resource_limit);
        let n = self.publishers.len();
        let mut pj: usize = 0;
        while pj < n
            invariant
                pj <= n,
                n == old(self).publishers@.len(),
                old(self).wf(),
                q.valid(),
                self.next_id == old(self).next_id + 1,
                id == old(self).next_id,
                self.topics@ == old(self).topics@,
                self.publishers@ == old(self).publishers@,
                self.subscriptions@ == old(self).subscriptions@,
                self.delivery_failures@ == old(self).delivery_failures@,
                buffer.wf(),
                buffer.history == q.history,
                buffer.lifespan == q.lifespan_duration,
                buffer.capacity == resource_limit,
                buffer.entries@ == after_writes(
                    q.history,
                    resource_limit,
                    Seq::empty(),
                    late_history(old(self).publishers@.subrange(0, pj as int), topic_id, q, now),
                ),
                forall|e: int|
                    0 <= e < buffer.entries@.len() ==> !is_expired(
                        #[trigger] buffer.entries@[e],
                        q.lifespan_duration,
                        now,
                    ),
                self.matches@ == old(self).matches@ + matches_for_subscription(
                    id,
                    topic_id,
                    q,
                    old(self).publishers@.subrange(0, pj as int),
                ),
            decreases n - pj,
        {
            let ghost prefix = old(self).publishers@.subrange(0, pj as int);
            let ghost gathered = late_history(prefix, topic_id, q, now);
            let ghost pcur = old(self).publishers@[pj as int];
            let mut contributed = false;
            if self.publishers[pj].topic_id == topic_id {
                let pq = self.publishers[pj].qos;
                match resolve(&pq, &q) {
                    Compatibility::Compatible { effective } => {
                        let pid = self.publishers[pj].id;
                        self.matches.push(
                            MatchRecord {
                                publisher_id: pid,
                                subscription_id: id,
                                topic_id,
                                effective,
                            },
                        );
                        if durability_rank(effective.durability) >= 1 {
                            contributed = true;
                            let pub_lifespan = self.publishers[pj].buffer.lifespan;
                            let m = self.publishers[pj].buffer.len();
                            let mut k: usize = 0;
                            proof {
                                lemma_retained_prefix_empty(pub_lifespan, q.lifespan_duration, now);
                                assert(pcur.buffer.entries@.subrange(0, 0) =~= Seq::<
                                    Sample,
                                >::empty());
                            }
                            while k < m
                                invariant
                                    k <= m,
                                    m == pcur.buffer.entries@.len(),
                                    self.publishers@ == old(self).publishers@,
                                    pj < n == old(self).publishers@.len(),
                                    pcur == old(self).publishers@[pj as int],
                                    pub_lifespan == pcur.buffer.lifespan,
                                    q.valid(),
                                    buffer.wf(),
                                    buffer.history == q.history,
                                    buffer.lifespan == q.lifespan_duration,
                                    buffer.capacity == resource_limit,
                                    buffer.entries@ == after_writes(
                                        q.history,
                                        resource_limit,
                                        Seq::empty(),
                                        gathered + retained_prefix(
                                            pcur.buffer.entries@.subrange(0, k as int),
                                            pub_lifespan,
                                            q.lifespan_duration,
                                            now,
                                        ),
                                    ),
                                    forall|e: int|
                                        0 <= e < buffer.entries@.len() ==> !is_expired(
                                            #[trigger] buffer.entries@[e],
                                            q.lifespan_duration,
                                            now,
                                        ),
                                decreases m - k,
                            {
                                proof {
                                    assert(pcur.buffer.entries@.subrange(0, k as int + 1)
                                        =~= pcur.buffer.entries@.subrange(0, k as int).push(
                                        pcur.buffer.entries@[k as int],
                                    ));
                                    lemma_retained_prefix_push(
                                        pcur.buffer.entries@.subrange(0, k as int),
                                        pub_lifespan,
                                        q.lifespan_duration,
                                        now,
                                        pcur.buffer.entries@[k as int],
                                    );
                                }
                                let e = &self.publishers[pj].buffer.entries[k];
                                if !sample_expired(e, pub_lifespan, now) && !sample_expired(
                                    e,
                                    q.lifespan_duration,
                                    now,
                                ) {
                                    let ghost held = buffer.entries@;
                                    let ghost ws = gathered + retained_prefix(
                                        pcur.buffer.entries@.subrange(0, k as int),
                                        pub_lifespan,
                                        q.lifespan_duration,
                                        now,
                                    );
                                    proof {
                                        lemma_live_view_identity(held, q.lifespan_duration, now);
                                        lemma_after_writes_push(
                                            q.history,
                                            resource_limit,
                                            Seq::empty(),
                                            ws,
                                            pcur.buffer.entries@[k as int],
                                        );
                                        lemma_after_write_elements(
                                            q.history,
                                            resource_limit,
                                            held,
                                            pcur.buffer.entries@[k as int],
                                        );
                                    }
                                    let _ = buffer.write(e.dup(), now);
                                    proof {
                                        assert(ws.push(pcur.buffer.entries@[k as int])
                                            =~= gathered + retained_prefix(
                                            pcur.buffer.entries@.subrange(0, k as int + 1),
                                            pub_lifespan,
                                            q.lifespan_duration,
                                            now,
                                        ));
                                        assert forall|e2: int|
                                            0 <= e2 < buffer.entries@.len() implies !is_expired(
                                            #[trigger] buffer.entries@[e2],
                                            q.lifespan_duration,
                                            now,
                                        ) by {
                                            if buffer.entries@[e2] != pcur.buffer.entries@[
                                                k as int
                                            ] {
                                                assert(held.contains(buffer.entries@[e2]));
                                                let he = choose|he: int|
                                                    0 <= he < held.len() && held[he]
                                                        == buffer.entries@[e2];
                                                assert(!is_expired(
                                                    held[he],
                                                    q.lifespan_duration,
                                                    now,
                                                ));
                                            }
                                        }
                                    }
                                }
                                k += 1;
                            }
                            proof {
                                assert(pcur.buffer.entries@.subrange(0, m as int)
                                    =~= pcur.buffer.entries@);
                                assert(old(self).publisher_ok(old(self).publishers@[pj as int]));
                                assert(late_contribution(pcur, topic_id, q, now)
                                    == retained_prefix(
                                    pcur.buffer.entries@,
                                    pub_lifespan,
                                    q.lifespan_duration,
                                    now,
                                ));
                            }
                        }
                    },
                    Compatibility::Incompatible { .. } => {},
                }
            }
            proof {
                if !contributed {
                    assert(late_contribution(pcur, topic_id, q, now) =~= Seq::<Sample>::empty());
                    assert(gathered + late_contribution(pcur, topic_id, q, now) =~= gathered);
                }
            }
            pj += 1;
            proof {
                let next = old(self).publishers@.subrange(0, pj as int);
                assert(next.drop_last() =~= prefix);
                assert(next.last() == old(self).publishers@[pj - 1]);
                assert(late_history(next, topic_id, q, now) =~= gathered + late_contribution(
                    pcur,
                    topic_id,
                    q,
                    now,
                ));
                assert(self.matches@ =~= old(self).matches@ + matches_for_subscription(
                    id,
                    topic_id,
                    q,
                    next,
                ));
            }
        }
        let has_history = buffer.len() > 0;
        self.subscriptions.push(
            Subscription {
                id,
                topic_id,
                qos: q,
                buffer,
                ready: has_history,
                last_arrival: now,
            },
        );
        proof {
            assert(old(self).publishers@.subrange(0, n as int) =~= old(self).publishers@);
            assert(self.subscriptions@.drop_last() =~= old(self).subscriptions@);
            self.lemma_wf_after_subscription_creation(*old(self), id, topic_id, q);
        }
        Ok(id)
    }

    /// Re-establishes well-formedness after one subscription and its
    /// match records were appended.
    #[verifier::rlimit(100)]
    proof fn lemma_wf_after_subscription_creation(
        self,
        prior: Node,
        id: u64,
        topic_id: u64,
        q: QosPolicySet,
    )
        requires
            prior.wf(),
            prior.next_id < u64::MAX,
            q.valid(),
            prior.has_topic(topic_id),
            self.next_id == prior.next_id + 1,
            id == prior.next_id,
            self.topics@ == prior.topics@,
            self.publishers@ == prior.publishers@,
            self.subscriptions@.len() == prior.subscriptions@.len() + 1,
            self.subscriptions@.drop_last() == prior.subscriptions@,
            ({
                let sb = self.subscriptions@.last();
                sb.id == id && sb.topic_id == topic_id && sb.qos == q && sb.buffer.wf()
                    && sb.buffer.history == q.history && sb.buffer.lifespan == q.lifespan_duration
            }),
            self.matches@ == prior.matches@ + matches_for_subscription(
                id,
                topic_id,
                q,
                prior.publishers@,
            ),
        ensures
            self.wf(),
    {
        let pubs = prior.publishers@;
        let rs = matches_for_subscription(id, topic_id, q, pubs);
        lemma_matches_for_subscription_sound(id, topic_id, q, pubs);
        lemma_matches_for_subscription_distinct(id, topic_id, q, pubs);
        let slen = prior.subscriptions@.len() as int;
        assert(forall|i: int|
            0 <= i < slen ==> self.subscriptions@[i] == prior.subscriptions@[i]);
        assert forall|i: int| 0 <= i < self.subscriptions@.len() implies self.subscription_ok(
            #[trigger] self.subscriptions@[i],
        ) by {
            if i < slen {
                assert(prior.subscription_ok(prior.subscriptions@[i]));
                let ti = choose|ti: int|
                    0 <= ti < prior.topics@.len() && (#[trigger] prior.topics@[ti]).id
                        == prior.subscriptions@[i].topic_id;
                assert(self.topics@[ti].id == self.subscriptions@[i].topic_id);
            } else {
                let ti = choose|ti: int|
                    0 <= ti < prior.topics@.len() && (#[trigger] prior.topics@[ti]).id == topic_id;
                assert(self.topics@[ti].id == self.subscriptions@.last().topic_id);
            }
        }
        assert forall|i: int| 0 <= i < self.publishers@.len() implies self.publisher_ok(
            #[trigger] self.publishers@[i],
        ) by {
            assert(prior.publisher_ok(prior.publishers@[i]));
            let ti = choose|ti: int|
                0 <= ti < prior.topics@.len() && (#[trigger] prior.topics@[ti]).id
                    == prior.publishers@[i].topic_id;
            assert(self.topics@[ti].id == self.publishers@[i].topic_id);
        }
        assert forall|i: int, j: int|
            #![trigger self.subscriptions@[i], self.subscriptions@[j]]
            0 <= i < j < self.subscriptions@.len() implies self.subscriptions@[i].id
            != self.subscriptions@[j].id by {
            if j < slen {
                assert(prior.subscription_ok(prior.subscriptions@[i]));
            } else {
                assert(prior.subscription_ok(prior.subscriptions@[i]));
                assert(self.subscriptions@[i].id < prior.next_id);
            }
        }
        assert forall|k: int| 0 <= k < self.matches@.len() implies self.match_ok(
            #[trigger] self.matches@[k],
        ) by {
            if k < prior.matches@.len() {
                assert(self.matches@[k] == prior.matches@[k]);
                assert(prior.match_ok(prior.matches@[k]));
                let (pi, sj): (int, int) = choose|pi: int, sj: int|
                    0 <= pi < prior.publishers@.len() && 0 <= sj < prior.subscriptions@.len() && (
                    #[trigger] prior.publishers@[pi]).id == prior.matches@[k].publisher_id && (
                    #[trigger] prior.subscriptions@[sj]).id
                        == prior.matches@[k].subscription_id && prior.publishers@[pi].topic_id
                        == prior.matches@[k].topic_id && prior.subscriptions@[sj].topic_id
                        == prior.matches@[k].topic_id && compatible(
                        prior.publishers@[pi].qos,
                        prior.subscriptions@[sj].qos,
                    ) && prior.matches@[k].effective == effective_qos(
                        prior.publishers@[pi].qos,
                        prior.subscriptions@[sj].qos,
                    );
                assert(self.subscriptions@[sj] == prior.subscriptions@[sj]);
            } else {
                let kk = k - prior.matches@.len();
                assert(self.matches@[k] == rs[kk]);
                let j = choose|j: int|
                    0 <= j < pubs.len() && (#[trigger] pubs[j]).id == rs[kk].publisher_id
                        && pubs[j].topic_id == topic_id && compatible(pubs[j].qos, q)
                        && rs[kk].effective == effective_qos(pubs[j].qos, q);
                assert(self.subscriptions@[slen].id == rs[kk].subscription_id);
                assert(self.publishers@[j].id == rs[kk].publisher_id);
            }
        }
        assert forall|k1: int, k2: int|
            #![trigger self.matches@[k1], self.matches@[k2]]
            0 <= k1 < k2 < self.matches@.len() implies !(self.matches@[k1].publisher_id
            == self.matches@[k2].publisher_id && self.matches@[k1].subscription_id
            == self.matches@[k2].subscription_id) by {
            let mlen = prior.matches@.len() as int;
            if k2 < mlen {
                assert(self.matches@[k1] == prior.matches@[k1]);
                assert(self.matches@[k2] == prior.matches@[k2]);
            } else if k1 < mlen {
                assert(self.matches@[k1] == prior.matches@[k1]);
                assert(prior.match_ok(prior.matches@[k1]));
                let (pi, sj): (int, int) = choose|pi: int, sj: int|
                    0 <= pi < prior.publishers@.len() && 0 <= sj < prior.subscriptions@.len() && (
                    #[trigger] prior.publishers@[pi]).id == prior.matches@[k1].publisher_id && (
                    #[trigger] prior.subscriptions@[sj]).id
                        == prior.matches@[k1].subscription_id;
                assert(prior.subscription_ok(prior.subscriptions@[sj]));
                assert(self.matches@[k1].subscription_id < prior.next_id);
                assert(self.matches@[k2] == rs[k2 - mlen]);
                assert(self.matches@[k2].subscription_id == id);
            } else {
                assert(self.matches@[k1] == rs[k1 - mlen]);
                assert(self.matches@[k2] == rs[k2 - mlen]);
            }
        }
    }

    /// The per-peer failures one publish call reports out of band: one
    /// per matched subscription whose pair resolved as Reliable and whose
    /// buffer cannot accept the sample within the blocking bound, in
    /// subscription order.  Best-effort pairs drop silently.
    pub open spec fn publish_failures(self, pid: u64, subs: Seq<Subscription>, now: u64) -> Seq<
        DeliveryFailure,
    >
        decreases subs.len(),
    {
        if subs.len() == 0 {
            Seq::empty()
        } else {
            self.publish_failures(pid, subs.drop_last(), now) + ({
                let s = subs.last();
                let lv = live_view(s.buffer.entries@, s.buffer.lifespan, now);
                if self.has_match(pid, s.id) && self.match_is_reliable(pid, s.id) && !accepts(
                    s.buffer.history,
                    s.buffer.capacity,
                    lv,
                ) {
                    seq![DeliveryFailure { publisher_id: pid, subscription_id: s.id }]
                } else {
                    Seq::empty()
                }
            })
        }
    }

    fn find_publisher(&self, pid: u64) -> (r: Option<usize>)
        ensures
            r matches Some(i) ==> i < self.publishers@.len() && self.publishers@[i as int].id
                == pid,
            r is None ==> !self.has_publisher(pid),
    {
        let mut i: usize = 0;
        while i < self.publishers.len()
            invariant
                i <= self.publishers@.len(),
                forall|j: int| 0 <= j < i ==> (#[trigger] self.publishers@[j]).id != pid,
            decreases self.publishers@.len() - i,
        {
            if self.publishers[i].id == pid {
                return Some(i);
            }
            i += 1;
        }
        None
    }

    fn find_subscription(&self, sid: u64) -> (r: Option<usize>)
        ensures
            r matches Some(i) ==> i < self.subscriptions@.len() && self.subscriptions@[i as int].id
                == sid,
            r is None ==> !self.has_subscription(sid),
    {
        let mut i: usize = 0;
        while i < self.subscriptions.len()
            invariant
                i <= self.subscriptions@.len(),
                forall|j: int| 0 <= j < i ==> (#[trigger] self.subscriptions@[j]).id != sid,
            decreases self.subscriptions@.len() - i,
        {
            if self.subscriptions[i].id == sid {
                return Some(i);
            }
            i += 1;
        }
        None
    }

    fn find_match(&self, pid: u64, sid: u64) -> (r: Option<usize>)
        ensures
            r matches Some(k) ==> k < self.matches@.len() && self.matches@[k as int].publisher_id
                == pid && self.matches@[k as int].subscription_id == sid,
            r is None ==> !self.has_match(pid, sid),
    {
        let mut k: usize = 0;
        while k < self.matches.len()
            invariant
                k <= self.matches@.len(),
                forall|j: int|
                    0 <= j < k ==> !((#[trigger] self.matches@[j]).publisher_id == pid
                        && self.matches@[j].subscription_id == sid),
            decreases self.matches@.len() - k,
        {
            if self.matches[k].publisher_id == pid && self.matches[k].subscription_id == sid {
                return Some(k);
            }
            k += 1;
        }
        None
    }

    /// Writes one sample.  The sample is stamped with the publisher's
    /// identity, its next sequence number and `now`, accepted into the
    /// publisher's own history buffer (retained for durable late-join
    /// delivery), and offered to every matched subscription's buffer.
    /// The call succeeds once buffered locally, whatever the per-peer
    /// outcomes; a Reliable peer that cannot accept within its blocking
    /// bound is reported on the side channel, a BestEffort peer is
    /// dropped silently, and one blocked peer never stalls the others.
    #[verifier::rlimit(100)]
    pub fn publish(&mut self, publisher_id: u64, payload: String, now: u64) -> (r: Result<
        (),
        EndpointError,
    >)
        requires
            old(self).wf(),
        ensures
            final(self).wf(),
            r is Err <==> !old(self).has_publisher(publisher_id),
            r is Err ==> *final(self) == *old(self),
            forall|pi: int|
                0 <= pi < old(self).publishers@.len() && (#[trigger] old(self).publishers@[pi]).id
                    == publisher_id ==> ({
                    let p0 = old(self).publishers@[pi];
                    let x = (Sample {
                        payload,
                        source: publisher_id,
                        sequence_number: p0.next_sequence,
                        timestamp: now,
                    });
                    &&& final(self).topics@ == old(self).topics@
                    &&& final(self).matches@ == old(self).matches@
                    &&& final(self).next_id == old(self).next_id
                    &&& final(self).publishers@.len() == old(self).publishers@.len()
                    &&& forall|pj: int|
                        0 <= pj < old(self).publishers@.len() && pj != pi ==> final(self).publishers@[pj] == old(self).publishers@[pj]
                    &&& ({
                        let p1 = final(self).publishers@[pi];
                        p1.id == p0.id && p1.topic_id == p0.topic_id && p1.qos == p0.qos
                            && p1.buffer.history == p0.buffer.history && p1.buffer.lifespan
                            == p0.buffer.lifespan && p1.buffer.capacity == p0.buffer.capacity
                            && p1.buffer.entries@ == after_write(
                            p0.buffer.history,
                            p0.buffer.capacity,
                            live_view(p0.buffer.entries@, p0.buffer.lifespan, now),
                            x,
                        ) && p1.next_sequence == bump(p0.next_sequence) && p1.last_write == now
                            && p1.last_assert == now
                    })
                    &&& final(self).subscriptions@.len() == old(self).subscriptions@.len()
                    &&& forall|sj: int|
                        0 <= sj < old(self).subscriptions@.len() && old(self).has_match(
                            publisher_id,
                            (#[trigger] old(self).subscriptions@[sj]).id,
                        ) ==> delivered_to(
                            old(self).subscriptions@[sj],
                            final(self).subscriptions@[sj],
                            x,
                            now,
                        )
                    &&& forall|sj: int|
                        0 <= sj < old(self).subscriptions@.len() && !old(self).has_match(
                            publisher_id,
                            (#[trigger] old(self).subscriptions@[sj]).id,
                        ) ==> final(self).subscriptions@[sj] == old(self).subscriptions@[sj]
                    &&& final(self).delivery_failures@ == old(self).delivery_failures@ + old(self).publish_failures(publisher_id, old(self).subscriptions@, now)
                }),
    {
        let pi = match self.find_publisher(publisher_id) {
            Some(i) => i,
            None => {
                return Err(EndpointError::EndpointDestroyed);
            },
        };
        proof {
            assert forall|p2: int|
                0 <= p2 < old(self).publishers@.len() && (#[trigger] old(self).publishers@[p2]).id
                    == publisher_id implies p2 == pi as int by {
                if p2 != pi as int {
                    assert(old(self).publishers@[p2].id != old(self).publishers@[pi as int].id);
                }
            }
        }
        let p_seq = self.publishers[pi].next_sequence;
        let x = Sample {
            payload,
            source: publisher_id,
            sequence_number: p_seq,
            timestamp: now,
        };
        let mut p = self.publishers.remove(pi);
        proof {
            assert(old(self).publisher_ok(old(self).publishers@[pi as int]));
        }
        let _ = p.buffer.write(x.dup(), now);
        p.next_sequence = if p_seq < u64::MAX {
            p_seq + 1
        } else {
            p_seq
        };
        p.last_write = now;
        p.last_assert = now;
        self.publishers.insert(pi, p);
        proof {
            assert(self.publishers@ =~= old(self).publishers@.update(
                pi as int,
                self.publishers@[pi as int],
            ));
        }
        let ghost pubs1 = self.publishers@;
        let n = self.subscriptions.len();
        let mut sj: usize = 0;
        while sj < n
            invariant
                sj <= n,
                n == old(self).subscriptions@.len(),
                old(self).wf(),
                self.next_id == old(self).next_id,
                self.topics@ == old(self).topics@,
                self.matches@ == old(self).matches@,
                self.publishers@ == pubs1,
                self.subscriptions@.len() == n,
                forall|j: int| sj <= j < n ==> self.subscriptions@[j] == old(self).subscriptions@[j],
                forall|j: int|
                    0 <= j < sj && old(self).has_match(
                        publisher_id,
                        (#[trigger] old(self).subscriptions@[j]).id,
                    ) ==> delivered_to(
                        old(self).subscriptions@[j],
                        self.subscriptions@[j],
                        x,
                        now,
                    ),
                forall|j: int|
                    0 <= j < sj && !old(self).has_match(
                        publisher_id,
                        (#[trigger] old(self).subscriptions@[j]).id,
                    ) ==> self.subscriptions@[j] == old(self).subscriptions@[j],
                self.delivery_failures@ == old(self).delivery_failures@ + old(self).publish_failures(publisher_id, old(self).subscriptions@.subrange(0, sj as int), now),
            decreases n - sj,
        {
            broadcast use group_filter_ensures;

            let ghost prefix = old(self).subscriptions@.subrange(0, sj as int);
            let ghost s_old = self.subscriptions@[sj as int];
            let sid = self.subscriptions[sj].id;
            let matched = self.find_match(publisher_id, sid);
            match matched {
                Some(mi) => {
                    proof {
                        assert(old(self).has_match(publisher_id, sid));
                    }
                    let reliable = match self.matches[mi].effective.reliability {
                        Reliability::Reliable { .. } => true,
                        Reliability::BestEffort => false,
                    };
                    proof {
                        if reliable {
                            assert(old(self).match_is_reliable(publisher_id, sid));
                        } else {
                            if old(self).match_is_reliable(publisher_id, sid) {
                                let k2 = choose|k2: int|
                                    0 <= k2 < old(self).matches@.len() && (#[trigger] old(self).matches@[k2]).publisher_id == publisher_id && old(self).matches@[k2].subscription_id == sid && old(self).matches@[
                                        k2
                                    ].effective.reliability matches Reliability::Reliable { .. };
                                if k2 != mi as int {
                                    assert(!(old(self).matches@[k2].publisher_id == old(self).matches@[mi as int].publisher_id && old(self).matches@[
                                        k2
                                    ].subscription_id == old(self).matches@[
                                        mi as int
                                    ].subscription_id));
                                }
                                assert(false);
                            }
                        }
                    }
                    let mut sub = self.subscriptions.remove(sj);
                    sub.buffer.evict_expired(now);
                    proof {
                        assert forall|e: int|
                            0 <= e < sub.buffer.entries@.len() implies !is_expired(
                            #[trigger] sub.buffer.entries@[e],
                            sub.buffer.lifespan,
                            now,
                        ) by {
                            assert(sub.buffer.entries@ == live_view(
                                s_old.buffer.entries@,
                                s_old.buffer.lifespan,
                                now,
                            ));
                        }
                        lemma_live_view_identity(sub.buffer.entries@, sub.buffer.lifespan, now);
                    }
                    let was_empty = sub.buffer.len() == 0;
                    let accepted = sub.buffer.write(x.dup(), now);
                    if accepted {
                        sub.ready = sub.ready || was_empty;
                        sub.last_arrival = now;
                    }
                    self.subscriptions.insert(sj, sub);
                    proof {
                        assert(delivered_to(s_old, self.subscriptions@[sj as int], x, now));
                    }
                    if reliable && !accepted {
                        self.delivery_failures.push(
                            DeliveryFailure { publisher_id, subscription_id: sid },
                        );
                    }
                },
                None => {
                    proof {
                        if old(self).has_match(publisher_id, sid) {
                            let k2 = choose|k2: int|
                                0 <= k2 < old(self).matches@.len() && (#[trigger] old(self).matches@[k2]).publisher_id == publisher_id && old(self).matches@[
                                    k2
                                ].subscription_id == sid;
                            assert(self.matches@[k2].publisher_id == publisher_id);
                            assert(false);
                        }
                    }
                },
            }
            sj += 1;
            proof {
                let next = old(self).subscriptions@.subrange(0, sj as int);
                assert(next.drop_last() =~= prefix);
                assert(next.last() == old(self).subscriptions@[sj - 1]);
                assert(self.delivery_failures@ =~= old(self).delivery_failures@ + old(self).publish_failures(publisher_id, next, now));
            }
        }
        proof {
            assert(old(self).subscriptions@.subrange(0, n as int) =~= old(self).subscriptions@);
            self.lemma_wf_after_traffic(*old(self));
        }
        Ok(())
    }

    /// Well-formedness only reads endpoint identities, policies and
    /// buffer bounds, so any operation that leaves ids, topics, policy
    /// sets, buffer policies and the match set untouched preserves it.
    proof fn lemma_wf_after_traffic(self, prior: Node)
        requires
            prior.wf(),
            self.next_id == prior.next_id,
            self.topics@ == prior.topics@,
            self.matches@ == prior.matches@,
            self.publishers@.len() == prior.publishers@.len(),
            self.subscriptions@.len() == prior.subscriptions@.len(),
            forall|i: int|
                0 <= i < prior.publishers@.len() ==> ({
                    let a = #[trigger] self.publishers@[i];
                    let b = prior.publishers@[i];
                    a.id == b.id && a.topic_id == b.topic_id && a.qos == b.qos && a.buffer.wf()
                        && a.buffer.history == b.buffer.history && a.buffer.lifespan
                        == b.buffer.lifespan
                }),
            forall|i: int|
                0 <= i < prior.subscriptions@.len() ==> ({
                    let a = #[trigger] self.subscriptions@[i];
                    let b = prior.subscriptions@[i];
                    a.id == b.id && a.topic_id == b.topic_id && a.qos == b.qos && a.buffer.wf()
                        && a.buffer.history == b.buffer.history && a.buffer.lifespan
                        == b.buffer.lifespan
                }),
        ensures
            self.wf(),
    {
        assert forall|i: int| 0 <= i < self.publishers@.len() implies self.publisher_ok(
            #[trigger] self.publishers@[i],
        ) by {
            assert(prior.publisher_ok(prior.publishers@[i]));
            let ti = choose|ti: int|
                0 <= ti < prior.topics@.len() && (#[trigger] prior.topics@[ti]).id
                    == prior.publishers@[i].topic_id;
            assert(self.topics@[ti].id == self.publishers@[i].topic_id);
            assert(self.publishers@[i].qos.history == self.publishers@[i].buffer.history);
        }
        assert forall|i: int| 0 <= i < self.subscriptions@.len() implies self.subscription_ok(
            #[trigger] self.subscriptions@[i],
        ) by {
            assert(prior.subscription_ok(prior.subscriptions@[i]));
            let ti = choose|ti: int|
                0 <= ti < prior.topics@.len() && (#[trigger] prior.topics@[ti]).id
                    == prior.subscriptions@[i].topic_id;
            assert(self.topics@[ti].id == self.subscriptions@[i].topic_id);
        }
        assert forall|i: int, j: int|
            #![trigger self.publishers@[i], self.publishers@[j]]
            0 <= i < j < self.publishers@.len() implies self.publishers@[i].id
            != self.publishers@[j].id by {
            assert(prior.publishers@[i].id != prior.publishers@[j].id);
        }
        assert forall|i: int, j: int|
            #![trigger self.subscriptions@[i], self.subscriptions@[j]]
            0 <= i < j < self.subscriptions@.len() implies self.subscriptions@[i].id
            != self.subscriptions@[j].id by {
            assert(prior.subscriptions@[i].id != prior.subscriptions@[j].id);
        }
        assert forall|k: int| 0 <= k < self.matches@.len() implies self.match_ok(
            #[trigger] self.matches@[k],
        ) by {
            assert(prior.match_ok(prior.matches@[k]));
            let (pi, sj): (int, int) = choose|pi: int, sj: int|
                0 <= pi < prior.publishers@.len() && 0 <= sj < prior.subscriptions@.len() && (
                #[trigger] prior.publishers@[pi]).id == prior.matches@[k].publisher_id && (
                #[trigger] prior.subscriptions@[sj]).id == prior.matches@[k].subscription_id
                    && prior.publishers@[pi].topic_id == prior.matches@[k].topic_id
                    && prior.subscriptions@[sj].topic_id == prior.matches@[k].topic_id
                    && compatible(prior.publishers@[pi].qos, prior.subscriptions@[sj].qos)
                    && prior.matches@[k].effective == effective_qos(
                    prior.publishers@[pi].qos,
                    prior.subscriptions@[sj].qos,
                );
            assert(self.publishers@[pi].id == self.matches@[k].publisher_id);
            assert(self.subscriptions@[sj].id == self.matches@[k].subscription_id);
        }
    }

    /// Pull interface: removes and returns the oldest readable sample of
    /// the subscription's buffer, or `None` when nothing is readable — a
    /// normal empty result, not an error.
    pub fn take(&mut self, subscription_id: u64, now: u64) -> (r: Result<
        Option<Sample>,
        EndpointError,
    >)
        requires
            old(self).wf(),
        ensures
            final(self).wf(),
            r is Err <==> !old(self).has_subscription(subscription_id),
            r is Err ==> *final(self) == *old(self),
            forall|sj: int|
                0 <= sj < old(self).subscriptions@.len() && (#[trigger] old(self).subscriptions@[sj]).id == subscription_id ==> ({
                    let s0 = old(self).subscriptions@[sj];
                    let lv = live_view(s0.buffer.entries@, s0.buffer.lifespan, now);
                    &&& r == Ok::<Option<Sample>, EndpointError>(take_result(lv))
                    &&& final(self).subscriptions@.len() == old(self).subscriptions@.len()
                    &&& forall|j: int|
                        0 <= j < old(self).subscriptions@.len() && j != sj ==> final(self).subscriptions@[j] == old(self).subscriptions@[j]
                    &&& ({
                        let s1 = final(self).subscriptions@[sj];
                        s1.id == s0.id && s1.topic_id == s0.topic_id && s1.qos == s0.qos
                            && s1.ready == s0.ready && s1.last_arrival == s0.last_arrival
                            && s1.buffer.history == s0.buffer.history && s1.buffer.lifespan
                            == s0.buffer.lifespan && s1.buffer.capacity == s0.buffer.capacity
                            && s1.buffer.entries@ == take_rest(lv)
                    })
                    &&& final(self).topics@ == old(self).topics@
                    &&& final(self).publishers@ == old(self).publishers@
                    &&& final(self).matches@ == old(self).matches@
                    &&& final(self).next_id == old(self).next_id
                    &&& final(self).delivery_failures@ == old(self).delivery_failures@
                }),
    {
        let sjx = match self.find_subscription(subscription_id) {
            Some(i) => i,
            None => {
                return Err(EndpointError::EndpointDestroyed);
            },
        };
        proof {
            assert forall|s2: int|
                0 <= s2 < old(self).subscriptions@.len() && (#[trigger] old(self).subscriptions@[s2]).id == subscription_id implies s2 == sjx as int by {
                if s2 != sjx as int {
                    assert(old(self).subscriptions@[s2].id != old(self).subscriptions@[
                        sjx as int
                    ].id);
                }
            }
            assert(old(self).subscription_ok(old(self).subscriptions@[sjx as int]));
        }
        let mut sub = self.subscriptions.remove(sjx);
        let out = sub.buffer.take(now);
        self.subscriptions.insert(sjx, sub);
        proof {
            assert(self.subscriptions@ =~= old(self).subscriptions@.update(
                sjx as int,
                self.subscriptions@[sjx as int],
            ));
            self.lemma_wf_after_traffic(*old(self));
        }
        Ok(out)
    }

    /// Push interface, one step: the next sample in arrival order, or
    /// `None` when the stream would suspend.  Both read interfaces drain
    /// the same buffer, so no sample is yielded twice across them.
    pub fn poll_next(&mut self, subscription_id: u64, now: u64) -> (r: Result<
        Option<Sample>,
        EndpointError,
    >)
        requires
            old(self).wf(),
        ensures
            final(self).wf(),
            r is Err <==> !old(self).has_subscription(subscription_id),
            r is Err ==> *final(self) == *old(self),
            forall|sj: int|
                0 <= sj < old(self).subscriptions@.len() && (#[trigger] old(self).subscriptions@[sj]).id == subscription_id ==> ({
                    let s0 = old(self).subscriptions@[sj];
                    let lv = live_view(s0.buffer.entries@, s0.buffer.lifespan, now);
                    &&& r == Ok::<Option<Sample>, EndpointError>(take_result(lv))
                    &&& final(self).subscriptions@.len() == old(self).subscriptions@.len()
                    &&& forall|j: int|
                        0 <= j < old(self).subscriptions@.len() && j != sj ==> final(self).subscriptions@[j] == old(self).subscriptions@[j]
                    &&& ({
                        let s1 = final(self).subscriptions@[sj];
                        s1.id == s0.id && s1.topic_id == s0.topic_id && s1.qos == s0.qos
                            && s1.ready == s0.ready && s1.last_arrival == s0.last_arrival
                            && s1.buffer.history == s0.buffer.history && s1.buffer.lifespan
                            == s0.buffer.lifespan && s1.buffer.capacity == s0.buffer.capacity
                            && s1.buffer.entries@ == take_rest(lv)
                    })
                    &&& final(self).topics@ == old(self).topics@
                    &&& final(self).publishers@ == old(self).publishers@
                    &&& final(self).matches@ == old(self).matches@
                    &&& final(self).next_id == old(self).next_id
                    &&& final(self).delivery_failures@ == old(self).delivery_failures@
                }),
    {
        self.take(subscription_id, now)
    }

    /// Edge-triggered readiness poll for the pull model: reports whether
    /// the buffer transitioned from empty to non-empty since the last
    /// poll, and rearms the notification.
    pub fn take_ready(&mut self, subscription_id: u64) -> (r: Result<bool, EndpointError>)
        requires
            old(self).wf(),
        ensures
            final(self).wf(),
            r is Err <==> !old(self).has_subscription(subscription_id),
            r is Err ==> *final(self) == *old(self),
            forall|sj: int|
                0 <= sj < old(self).subscriptions@.len() && (#[trigger] old(self).subscriptions@[sj]).id == subscription_id ==> ({
                    let s0 = old(self).subscriptions@[sj];
                    &&& r == Ok::<bool, EndpointError>(s0.ready)
                    &&& final(self).subscriptions@.len() == old(self).subscriptions@.len()
                    &&& forall|j: int|
                        0 <= j < old(self).subscriptions@.len() && j != sj ==> final(self).subscriptions@[j] == old(self).subscriptions@[j]
                    &&& ({
                        let s1 = final(self).subscriptions@[sj];
                        s1.id == s0.id && s1.topic_id == s0.topic_id && s1.qos == s0.qos
                            && s1.ready == false && s1.last_arrival == s0.last_arrival
                            && s1.buffer == s0.buffer
                    })
                    &&& final(self).topics@ == old(self).topics@
                    &&& final(self).publishers@ == old(self).publishers@
                    &&& final(self).matches@ == old(self).matches@
                    &&& final(self).next_id == old(self).next_id
                    &&& final(self).delivery_failures@ == old(self).delivery_failures@
                }),
    {
        let sjx = match self.find_subscription(subscription_id) {
            Some(i) => i,
            None => {
                return Err(EndpointError::EndpointDestroyed);
            },
        };
        proof {
            assert forall|s2: int|
                0 <= s2 < old(self).subscriptions@.len() && (#[trigger] old(self).subscriptions@[s2]).id == subscription_id implies s2 == sjx as int by {
                if s2 != sjx as int {
                    assert(old(self).subscriptions@[s2].id != old(self).subscriptions@[
                        sjx as int
                    ].id);
                }
            }
            assert(old(self).subscription_ok(old(self).subscriptions@[sjx as int]));
        }
        let mut sub = self.subscriptions.remove(sjx);
        let was_ready = sub.ready;
        sub.ready = false;
        self.subscriptions.insert(sjx, sub);
        proof {
            assert(self.subscriptions@ =~= old(self).subscriptions@.update(
                sjx as int,
                self.subscriptions@[sjx as int],
            ));
            self.lemma_wf_after_traffic(*old(self));
        }
        Ok(was_ready)
    }

    /// Drains the oldest per-peer delivery failure from the side
    /// channel, if any.
    pub fn take_delivery_failure(&mut self) -> (r: Option<DeliveryFailure>)
        requires
            old(self).wf(),
        ensures
            final(self).wf(),
            old(self).delivery_failures@.len() == 0 ==> r is None && *final(self) == *old(self),
            old(self).delivery_failures@.len() > 0 ==> r == Some(old(self).delivery_failures@[0])
                && final(self).delivery_failures@ == old(self).delivery_failures@.skip(1),
            final(self).topics@ == old(self).topics@,
            final(self).publishers@ == old(self).publishers@,
            final(self).subscriptions@ == old(self).subscriptions@,
            final(self).matches@ == old(self).matches@,
            final(self).next_id == old(self).next_id,
    {
        if self.delivery_failures.len() == 0 {
            None
        } else {
            let ghost fs = self.delivery_failures@;
            let f = self.delivery_failures.remove(0);
            proof {
                assert(fs.remove(0) =~= fs.skip(1));
                self.lemma_wf_after_traffic(*old(self));
            }
            Some(f)
        }
    }

    /// Records an explicit (manual) liveliness assertion for a
    /// publisher at `now`, restarting its lease.
    pub fn assert_liveliness(&mut self, publisher_id: u64, now: u64) -> (r: Result<
        (),
        EndpointError,
    >)
        requires
            old(self).wf(),
        ensures
            final(self).wf(),
            r is Err <==> !old(self).has_publisher(publisher_id),
            r is Err ==> *final(self) == *old(self),
            forall|pi: int|
                0 <= pi < old(self).publishers@.len() && (#[trigger] old(self).publishers@[pi]).id
                    == publisher_id ==> ({
                    &&& final(self).publishers@.len() == old(self).publishers@.len()
                    &&& forall|j: int|
                        0 <= j < old(self).publishers@.len() && j != pi ==> final(self).publishers@[j] == old(self).publishers@[j]
                    &&& final(self).publishers@[pi] == (Publisher {
                        last_assert: now,
                        ..old(self).publishers@[pi]
                    })
                    &&& final(self).topics@ == old(self).topics@
                    &&& final(self).subscriptions@ == old(self).subscriptions@
                    &&& final(self).matches@ == old(self).matches@
                    &&& final(self).next_id == old(self).next_id
                    &&& final(self).delivery_failures@ == old(self).delivery_failures@
                }),
    {
        let pix = match self.find_publisher(publisher_id) {
            Some(i) => i,
            None => {
                return Err(EndpointError::EndpointDestroyed);
            },
        };
        proof {
            assert forall|p2: int|
                0 <= p2 < old(self).publishers@.len() && (#[trigger] old(self).publishers@[p2]).id
                    == publisher_id implies p2 == pix as int by {
                if p2 != pix as int {
                    assert(old(self).publishers@[p2].id != old(self).publishers@[pix as int].id);
                }
            }
            assert(old(self).publisher_ok(old(self).publishers@[pix as int]));
        }
        let mut p = self.publishers.remove(pix);
        p.last_assert = now;
        self.publishers.insert(pix, p);
        proof {
            assert(self.publishers@ =~= old(self).publishers@.update(
                pix as int,
                self.publishers@[pix as int],
            ));
            self.lemma_wf_after_traffic(*old(self));
        }
        Ok(())
    }

    /// Advisory liveliness status of a publisher at `now`, from its last
    /// qualifying assertion (write or manual) and its leased duration.
    pub fn liveliness_of(&self, publisher_id: u64, now: u64) -> (r: Result<
        LivelinessStatus,
        EndpointError,
    >)
        requires
            self.wf(),
        ensures
            r is Err <==> !self.has_publisher(publisher_id),
            forall|pi: int|
                0 <= pi < self.publishers@.len() && (#[trigger] self.publishers@[pi]).id
                    == publisher_id ==> r == Ok::<LivelinessStatus, EndpointError>(
                    if alive_at(
                        self.publishers@[pi].last_assert,
                        self.publishers@[pi].qos.liveliness_lease,
                        now,
                    ) {
                        LivelinessStatus::Alive
                    } else {
                        LivelinessStatus::NotAlive
                    },
                ),
    {
        let pix = match self.find_publisher(publisher_id) {
            Some(i) => i,
            None => {
                return Err(EndpointError::EndpointDestroyed);
            },
        };
        proof {
            assert forall|p2: int|
                0 <= p2 < self.publishers@.len() && (#[trigger] self.publishers@[p2]).id
                    == publisher_id implies p2 == pix as int by {
                if p2 != pix as int {
                    assert(self.publishers@[p2].id != self.publishers@[pix as int].id);
                }
            }
        }
        let p_last = self.publishers[pix].last_assert;
        let lease = self.publishers[pix].qos.liveliness_lease;
        Ok(liveliness_status(p_last, lease, now))
    }

    /// Advisory deadline status of a publisher at `now`: missed when no
    /// sample was written within the deadline period.
    pub fn publisher_deadline_of(&self, publisher_id: u64, now: u64) -> (r: Result<
        DeadlineStatus,
        EndpointError,
    >)
        requires
            self.wf(),
        ensures
            r is Err <==> !self.has_publisher(publisher_id),
            forall|pi: int|
                0 <= pi < self.publishers@.len() && (#[trigger] self.publishers@[pi]).id
                    == publisher_id ==> r == Ok::<DeadlineStatus, EndpointError>(
                    if deadline_met_at(
                        self.publishers@[pi].last_write,
                        self.publishers@[pi].qos.deadline_period,
                        now,
                    ) {
                        DeadlineStatus::DeadlineMet
                    } else {
                        DeadlineStatus::DeadlineMissed
                    },
                ),
    {
        let pix = match self.find_publisher(publisher_id) {
            Some(i) => i,
            None => {
                return Err(EndpointError::EndpointDestroyed);
            },
        };
        proof {
            assert forall|p2: int|
                0 <= p2 < self.publishers@.len() && (#[trigger] self.publishers@[p2]).id
                    == publisher_id implies p2 == pix as int by {
                if p2 != pix as int {
                    assert(self.publishers@[p2].id != self.publishers@[pix as int].id);
                }
            }
        }
        let p_last = self.publishers[pix].last_write;
        let period = self.publishers[pix].qos.deadline_period;
        Ok(deadline_status(p_last, period, now))
    }

    /// Advisory deadline status of a subscription at `now`: missed when
    /// no sample arrived within the deadline period.
    pub fn subscription_deadline_of(&self, subscription_id: u64, now: u64) -> (r: Result<
        DeadlineStatus,
        EndpointError,
    >)
        requires
            self.wf(),
        ensures
            r is Err <==> !self.has_subscription(subscription_id),
            forall|sj: int|
                0 <= sj < self.subscriptions@.len() && (#[trigger] self.subscriptions@[sj]).id
                    == subscription_id ==> r == Ok::<DeadlineStatus, EndpointError>(
                    if deadline_met_at(
                        self.subscriptions@[sj].last_arrival,
                        self.subscriptions@[sj].qos.deadline_period,
                        now,
                    ) {
                        DeadlineStatus::DeadlineMet
                    } else {
                        DeadlineStatus::DeadlineMissed
                    },
                ),
    {
        let sjx = match self.find_subscription(subscription_id) {
            Some(i) => i,
            None => {
                return Err(EndpointError::EndpointDestroyed);
            },
        };
        proof {
            assert forall|s2: int|
                0 <= s2 < self.subscriptions@.len() && (#[trigger] self.subscriptions@[s2]).id
                    == subscription_id implies s2 == sjx as int by {
                if s2 != sjx as int {
                    assert(self.subscriptions@[s2].id != self.subscriptions@[sjx as int].id);
                }
            }
        }
        let s_last = self.subscriptions[sjx].last_arrival;
        let period = self.subscriptions[sjx].qos.deadline_period;
        Ok(deadline_status(s_last, period, now))
    }

    fn retain_matches_without(&mut self, eid: u64)
        ensures
            final(self).matches@ == matches_without(old(self).matches@, eid),
            final(self).topics@ == old(self).topics@,
            final(self).publishers@ == old(self).publishers@,
            final(self).subscriptions@ == old(self).subscriptions@,
            final(self).next_id == old(self).next_id,
            final(self).delivery_failures@ == old(self).delivery_failures@,
    {
        let ghost ms = self.matches@;
        let mut kept: Vec<MatchRecord> = Vec::new();
        let mut k: usize = 0;
        proof {
            reveal(Seq::filter);
            assert(ms.subrange(0, 0) =~= Seq::<MatchRecord>::empty());
            assert(kept@ =~= matches_without(ms.subrange(0, 0), eid));
        }
        while k < self.matches.len()
            invariant
                k <= ms.len(),
                self.matches@ == ms,
                kept@ == matches_without(ms.subrange(0, k as int), eid),
            decreases ms.len() - k,
        {
            proof {
                assert(ms.subrange(0, k as int + 1) =~= ms.subrange(0, k as int).push(
                    ms[k as int],
                ));
                lemma_filter_push(
                    ms.subrange(0, k as int),
                    |m: MatchRecord| m.publisher_id != eid && m.subscription_id != eid,
                    ms[k as int],
                );
            }
            let m = self.matches[k];
            if m.publisher_id != eid && m.subscription_id != eid {
                kept.push(m);
            }
            k += 1;
        }
        proof {
            assert(ms.subrange(0, ms.len() as int) =~= ms);
        }
        self.matches = kept;
    }

    /// The match records currently referencing an endpoint, in order; a
    /// QoS-incompatible pair simply never appears here.
    pub fn matches_for(&self, endpoint_id: u64) -> (r: Vec<MatchRecord>)
        ensures
            r@ == matches_involving(self.matches@, endpoint_id),
    {
        let ghost ms = self.matches@;
        let mut out: Vec<MatchRecord> = Vec::new();
        let mut k: usize = 0;
        proof {
            reveal(Seq::filter);
            assert(ms.subrange(0, 0) =~= Seq::<MatchRecord>::empty());
            assert(out@ =~= matches_involving(ms.subrange(0, 0), endpoint_id));
        }
        while k < self.matches.len()
            invariant
                k <= ms.len(),
                self.matches@ == ms,
                out@ == matches_involving(ms.subrange(0, k as int), endpoint_id),
            decreases ms.len() - k,
        {
            proof {
                assert(ms.subrange(0, k as int + 1) =~= ms.subrange(0, k as int).push(
                    ms[k as int],
                ));
                lemma_filter_push(
                    ms.subrange(0, k as int),
                    |m: MatchRecord| m.publisher_id == endpoint_id || m.subscription_id
                        == endpoint_id,
                    ms[k as int],
                );
            }
            let m = self.matches[k];
            if m.publisher_id == endpoint_id || m.subscription_id == endpoint_id {
                out.push(m);
            }
            k += 1;
        }
        proof {
            assert(ms.subrange(0, ms.len() as int) =~= ms);
        }
        out
    }

    /// Destroys a publisher: the endpoint is dropped, every match record
    /// referencing it is removed, and the monitor stops tracking it.
    pub fn destroy_publisher(&mut self, publisher_id: u64) -> (r: Result<(), EndpointError>)
        requires
            old(self).wf(),
        ensures
            final(self).wf(),
            r is Err <==> !old(self).has_publisher(publisher_id),
            r is Err ==> *final(self) == *old(self),
            forall|pi: int|
                0 <= pi < old(self).publishers@.len() && (#[trigger] old(self).publishers@[pi]).id
                    == publisher_id ==> ({
                    &&& final(self).publishers@ == old(self).publishers@.remove(pi)
                    &&& final(self).matches@ == matches_without(old(self).matches@, publisher_id)
                    &&& final(self).topics@ == old(self).topics@
                    &&& final(self).subscriptions@ == old(self).subscriptions@
                    &&& final(self).next_id == old(self).next_id
                    &&& final(self).delivery_failures@ == old(self).delivery_failures@
                }),
    {
        let pix = match self.find_publisher(publisher_id) {
            Some(i) => i,
            None => {
                return Err(EndpointError::EndpointDestroyed);
            },
        };
        proof {
            assert forall|p2: int|
                0 <= p2 < old(self).publishers@.len() && (#[trigger] old(self).publishers@[p2]).id
                    == publisher_id implies p2 == pix as int by {
                if p2 != pix as int {
                    assert(old(self).publishers@[p2].id != old(self).publishers@[pix as int].id);
                }
            }
        }
        let _ = self.publishers.remove(pix);
        self.retain_matches_without(publisher_id);
        proof {
            self.lemma_wf_after_publisher_removal(*old(self), pix as int, publisher_id);
        }
        Ok(())
    }

    /// Destroys a subscription: the endpoint is dropped, every match
    /// record referencing it is removed, and the monitor stops tracking
    /// it.
    pub fn destroy_subscription(&mut self, subscription_id: u64) -> (r: Result<(), EndpointError>)
        requires
            old(self).wf(),
        ensures
            final(self).wf(),
            r is Err <==> !old(self).has_subscription(subscription_id),
            r is Err ==> *final(self) == *old(self),
            forall|sj: int|
                0 <= sj < old(self).subscriptions@.len() && (#[trigger] old(
                    self,
                ).subscriptions@[sj]).id == subscription_id ==> ({
                    &&& final(self).subscriptions@ == old(self).subscriptions@.remove(sj)
                    &&& final(self).matches@ == matches_without(
                        old(self).matches@,
                        subscription_id,
                    )
                    &&& final(self).topics@ == old(self).topics@
                    &&& final(self).publishers@ == old(self).publishers@
                    &&& final(self).next_id == old(self).next_id
                    &&& final(self).delivery_failures@ == old(self).delivery_failures@
                }),
    {
        let sjx = match self.find_subscription(subscription_id) {
            Some(i) => i,
            None => {
                return Err(EndpointError::EndpointDestroyed);
            },
        };
        proof {
            assert forall|s2: int|
                0 <= s2 < old(self).subscriptions@.len() && (#[trigger] old(
                    self,
                ).subscriptions@[s2]).id == subscription_id implies s2 == sjx as int by {
                if s2 != sjx as int {
                    assert(old(self).subscriptions@[s2].id != old(self).subscriptions@[
                        sjx as int
                    ].id);
                }
            }
        }
        let _ = self.subscriptions.remove(sjx);
        self.retain_matches_without(subscription_id);
        proof {
            self.lemma_wf_after_subscription_removal(*old(self), sjx as int, subscription_id);
        }
        Ok(())
    }

    /// Re-establishes well-formedness after one publisher and every
    /// record referencing it were removed: no record is left stale.
    #[verifier::rlimit(100)]
    proof fn lemma_wf_after_publisher_removal(self, prior: Node, pi: int, eid: u64)
        requires
            prior.wf(),
            self.next_id == prior.next_id,
            self.topics@ == prior.topics@,
            self.subscriptions@ == prior.subscriptions@,
            0 <= pi < prior.publishers@.len(),
            prior.publishers@[pi].id == eid,
            self.publishers@ == prior.publishers@.remove(pi),
            self.matches@ == matches_without(prior.matches@, eid),
        ensures
            self.wf(),
    {
        broadcast use group_filter_ensures;

        let pred = |m: MatchRecord| m.publisher_id != eid && m.subscription_id != eid;
        assert forall|i: int|
            0 <= i < self.publishers@.len() implies #[trigger] self.publishers@[i] == (if i < pi {
            prior.publishers@[i]
        } else {
            prior.publishers@[i + 1]
        }) by {}
        assert forall|i: int| 0 <= i < self.publishers@.len() implies self.publisher_ok(
            #[trigger] self.publishers@[i],
        ) by {
            let i0 = if i < pi { i } else { i + 1 };
            assert(prior.publisher_ok(prior.publishers@[i0]));
            let ti = choose|ti: int|
                0 <= ti < prior.topics@.len() && (#[trigger] prior.topics@[ti]).id
                    == prior.publishers@[i0].topic_id;
            assert(self.topics@[ti].id == self.publishers@[i].topic_id);
        }
        assert forall|i: int, j: int|
            #![trigger self.publishers@[i], self.publishers@[j]]
            0 <= i < j < self.publishers@.len() implies self.publishers@[i].id
            != self.publishers@[j].id by {
            let i0 = if i < pi { i } else { i + 1 };
            let j0 = if j < pi { j } else { j + 1 };
            assert(prior.publishers@[i0].id != prior.publishers@[j0].id);
        }
        assert forall|i: int| 0 <= i < self.subscriptions@.len() implies self.subscription_ok(
            #[trigger] self.subscriptions@[i],
        ) by {
            assert(prior.subscription_ok(prior.subscriptions@[i]));
            let ti = choose|ti: int|
                0 <= ti < prior.topics@.len() && (#[trigger] prior.topics@[ti]).id
                    == prior.subscriptions@[i].topic_id;
            assert(self.topics@[ti].id == self.subscriptions@[i].topic_id);
        }
        assert forall|i: int, j: int|
            #![trigger self.subscriptions@[i], self.subscriptions@[j]]
            0 <= i < j < self.subscriptions@.len() implies self.subscriptions@[i].id
            != self.subscriptions@[j].id by {
            assert(prior.subscriptions@[i].id != prior.subscriptions@[j].id);
        }
        assert forall|k: int| 0 <= k < self.matches@.len() implies self.match_ok(
            #[trigger] self.matches@[k],
        ) by {
            let m = self.matches@[k];
            assert(pred(m));
            assert(self.matches@.contains(m));
            prior.matches@.lemma_filter_contains_rev(pred, m);
            let k0 = choose|k0: int| 0 <= k0 < prior.matches@.len() && prior.matches@[k0] == m;
            assert(prior.match_ok(prior.matches@[k0]));
            let (opi, osj): (int, int) = choose|opi: int, osj: int|
                0 <= opi < prior.publishers@.len() && 0 <= osj < prior.subscriptions@.len() && (
                #[trigger] prior.publishers@[opi]).id == m.publisher_id && (
                #[trigger] prior.subscriptions@[osj]).id == m.subscription_id
                    && prior.publishers@[opi].topic_id == m.topic_id
                    && prior.subscriptions@[osj].topic_id == m.topic_id && compatible(
                    prior.publishers@[opi].qos,
                    prior.subscriptions@[osj].qos,
                ) && m.effective == effective_qos(
                    prior.publishers@[opi].qos,
                    prior.subscriptions@[osj].qos,
                );
            assert(opi != pi);
            let npi = if opi < pi { opi } else { opi - 1 };
            assert(self.publishers@[npi] == prior.publishers@[opi]);
            assert(self.subscriptions@[osj] == prior.subscriptions@[osj]);
        }
        lemma_filter_matches_distinct(prior.matches@, pred);
    }

    /// Re-establishes well-formedness after one subscription and every
    /// record referencing it were removed: no record is left stale.
    #[verifier::rlimit(100)]
    proof fn lemma_wf_after_subscription_removal(self, prior: Node, sj: int, eid: u64)
        requires
            prior.wf(),
            self.next_id == prior.next_id,
            self.topics@ == prior.topics@,
            self.publishers@ == prior.publishers@,
            0 <= sj < prior.subscriptions@.len(),
            prior.subscriptions@[sj].id == eid,
            self.subscriptions@ == prior.subscriptions@.remove(sj),
            self.matches@ == matches_without(prior.matches@, eid),
        ensures
            self.wf(),
    {
        broadcast use group_filter_ensures;

        let pred = |m: MatchRecord| m.publisher_id != eid && m.subscription_id != eid;
        assert forall|i: int|
            0 <= i < self.subscriptions@.len() implies #[trigger] self.subscriptions@[i] == (if i
            < sj {
            prior.subscriptions@[i]
        } else {
            prior.subscriptions@[i + 1]
        }) by {}
        assert forall|i: int| 0 <= i < self.subscriptions@.len() implies self.subscription_ok(
            #[trigger] self.subscriptions@[i],
        ) by {
            let i0 = if i < sj { i } else { i + 1 };
            assert(prior.subscription_ok(prior.subscriptions@[i0]));
            let ti = choose|ti: int|
                0 <= ti < prior.topics@.len() && (#[trigger] prior.topics@[ti]).id
                    == prior.subscriptions@[i0].topic_id;
            assert(self.topics@[ti].id == self.subscriptions@[i].topic_id);
        }
        assert forall|i: int, j: int|
            #![trigger self.subscriptions@[i], self.subscriptions@[j]]
            0 <= i < j < self.subscriptions@.len() implies self.subscriptions@[i].id
            != self.subscriptions@[j].id by {
            let i0 = if i < sj { i } else { i + 1 };
            let j0 = if j < sj { j } else { j + 1 };
            assert(prior.subscriptions@[i0].id != prior.subscriptions@[j0].id);
        }
        assert forall|i: int| 0 <= i < self.publishers@.len() implies self.publisher_ok(
            #[trigger] self.publishers@[i],
        ) by {
            assert(prior.publisher_ok(prior.publishers@[i]));
            let ti = choose|ti: int|
                0 <= ti < prior.topics@.len() && (#[trigger] prior.topics@[ti]).id
                    == prior.publishers@[i].topic_id;
            assert(self.topics@[ti].id == self.publishers@[i].topic_id);
        }
        assert forall|i: int, j: int|
            #![trigger self.publishers@[i], self.publishers@[j]]
            0 <= i < j < self.publishers@.len() implies self.publishers@[i].id
            != self.publishers@[j].id by {
            assert(prior.publishers@[i].id != prior.publishers@[j].id);
        }
        assert forall|k: int| 0 <= k < self.matches@.len() implies self.match_ok(
            #[trigger] self.matches@[k],
        ) by {
            let m = self.matches@[k];
            assert(pred(m));
            assert(self.matches@.contains(m));
            prior.matches@.lemma_filter_contains_rev(pred, m);
            let k0 = choose|k0: int| 0 <= k0 < prior.matches@.len() && prior.matches@[k0] == m;
            assert(prior.match_ok(prior.matches@[k0]));
            let (opi, osj): (int, int) = choose|opi: int, osj: int|
                0 <= opi < prior.publishers@.len() && 0 <= osj < prior.subscriptions@.len() && (
                #[trigger] prior.publishers@[opi]).id == m.publisher_id && (
                #[trigger] prior.subscriptions@[osj]).id == m.subscription_id
                    && prior.publishers@[opi].topic_id == m.topic_id
                    && prior.subscriptions@[osj].topic_id == m.topic_id && compatible(
                    prior.publishers@[opi].qos,
                    prior.subscriptions@[osj].qos,
                ) && m.effective == effective_qos(
                    prior.publishers@[opi].qos,
                    prior.subscriptions@[osj].qos,
                );
            assert(osj != sj);
            let nsj = if osj < sj { osj } else { osj - 1 };
            assert(self.subscriptions@[nsj] == prior.subscriptions@[osj]);
            assert(self.publishers@[opi] == prior.publishers@[opi]);
        }
        lemma_filter_matches_distinct(prior.matches@, pred);
    }
}

} // verus!
