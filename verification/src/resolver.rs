//! QoS compatibility resolution.
//!
//! [`resolve`] compares an offered policy set (publisher side) against a
//! requested one (subscriber side).  Per policy kind the offered side must
//! be at least as strong as the requested side; a pair is either fully
//! compatible, yielding the effective policy set for the match, or
//! incompatible with one reason per failing kind.  The resolver is a pure
//! function of its two arguments.

use vstd::prelude::*;
use crate::qos::{
    Durability, History, LivelinessKind, QosPolicySet, Reliability,
};

verus! {

/// The negotiable policy kinds, used to report incompatibility reasons.
#[derive(Clone, Copy, PartialEq, Eq, Structural, Debug)]
pub enum PolicyKind {
    History,
    Reliability,
    Durability,
    Deadline,
    Liveliness,
}

/// Rank of a durability level on the order
/// `Volatile < TransientLocal < Transient < Persistent`.
pub open spec fn durability_level(d: Durability) -> int {
    match d {
        Durability::Volatile => 0,
        Durability::TransientLocal => 1,
        Durability::Transient => 2,
        Durability::Persistent => 3,
    }
}

/// Rank of a liveliness kind on the order
/// `Automatic < ManualByTopic < ManualByParticipant`.
pub open spec fn liveliness_level(k: LivelinessKind) -> int {
    match k {
        LivelinessKind::Automatic => 0,
        LivelinessKind::ManualByTopic => 1,
        LivelinessKind::ManualByParticipant => 2,
    }
}

/// Reliable offered satisfies either requested kind; BestEffort offered
/// satisfies only BestEffort requested.
pub open spec fn reliability_ok(o: QosPolicySet, r: QosPolicySet) -> bool {
    match (o.reliability, r.reliability) {
        (Reliability::Reliable { .. }, _) => true,
        (Reliability::BestEffort, Reliability::BestEffort) => true,
        (Reliability::BestEffort, Reliability::Reliable { .. }) => false,
    }
}

/// Offered durability must rank at least as high as requested.
pub open spec fn durability_ok(o: QosPolicySet, r: QosPolicySet) -> bool {
    durability_level(o.durability) >= durability_level(r.durability)
}

/// KeepAll offered is always compatible; KeepLast offered needs at least
/// the requested depth and never satisfies KeepAll requested.
pub open spec fn history_ok(o: QosPolicySet, r: QosPolicySet) -> bool {
    match (o.history, r.history) {
        (History::KeepAll, _) => true,
        (History::KeepLast { depth: od }, History::KeepLast { depth: rd }) => od >= rd,
        (History::KeepLast { .. }, History::KeepAll) => false,
    }
}

/// A tighter offered deadline period satisfies a looser requested one.
pub open spec fn deadline_ok(o: QosPolicySet, r: QosPolicySet) -> bool {
    o.deadline_period <= r.deadline_period
}

/// Offered liveliness kind must rank at least as high as requested, with a
/// lease no longer than the requested one.
pub open spec fn liveliness_ok(o: QosPolicySet, r: QosPolicySet) -> bool {
    liveliness_level(o.liveliness) >= liveliness_level(r.liveliness)
        && o.liveliness_lease <= r.liveliness_lease
}

/// Full compatibility: every per-kind rule holds.
pub open spec fn compatible(o: QosPolicySet, r: QosPolicySet) -> bool {
    history_ok(o, r) && reliability_ok(o, r) && durability_ok(o, r) && deadline_ok(o, r)
        && liveliness_ok(o, r)
}

/// The effective policy set of a compatible pair: per ordered kind the
/// more conservative value, which under the compatibility rules is the
/// requested one (the weaker of the two guarantees); for lifespan, which
/// carries no compatibility rule, the shorter of the two durations.
pub open spec fn effective_qos(o: QosPolicySet, r: QosPolicySet) -> QosPolicySet {
    QosPolicySet {
        history: r.history,
        reliability: r.reliability,
        durability: r.durability,
        deadline_period: r.deadline_period,
        lifespan_duration: if o.lifespan_duration <= r.lifespan_duration {
            o.lifespan_duration
        } else {
            r.lifespan_duration
        },
        liveliness: r.liveliness,
        liveliness_lease: r.liveliness_lease,
    }
}

/// The kinds whose rules fail for `(o, r)`, in the fixed report order
/// History, Reliability, Durability, Deadline, Liveliness.
pub open spec fn failing_kinds(o: QosPolicySet, r: QosPolicySet) -> Seq<PolicyKind> {
    (if !history_ok(o, r) {
        seq![PolicyKind::History]
    } else {
        Seq::empty()
    }) + (if !reliability_ok(o, r) {
        seq![PolicyKind::Reliability]
    } else {
        Seq::empty()
    }) + (if !durability_ok(o, r) {
        seq![PolicyKind::Durability]
    } else {
        Seq::empty()
    }) + (if !deadline_ok(o, r) {
        seq![PolicyKind::Deadline]
    } else {
        Seq::empty()
    }) + (if !liveliness_ok(o, r) {
        seq![PolicyKind::Liveliness]
    } else {
        Seq::empty()
    })
}

/// Outcome of resolution: either the effective policy set for the pair or
/// one reason per failing policy kind.
#[derive(Debug)]
pub enum Compatibility {
    Compatible { effective: QosPolicySet },
    Incompatible { reasons: Vec<PolicyKind> },
}

fn check_history(o: &QosPolicySet, r: &QosPolicySet) -> (ok: bool)
    ensures
        ok == history_ok(*o, *r),
{
    match (o.history, r.history) {
        (History::KeepAll, _) => true,
        (History::KeepLast { depth: od }, History::KeepLast { depth: rd }) => od >= rd,
        (History::KeepLast { .. }, History::KeepAll) => false,
    }
}

fn check_reliability(o: &QosPolicySet, r: &QosPolicySet) -> (ok: bool)
    ensures
        ok == reliability_ok(*o, *r),
{
    match (o.reliability, r.reliability) {
        (Reliability::Reliable { .. }, _) => true,
        (Reliability::BestEffort, Reliability::BestEffort) => true,
        (Reliability::BestEffort, Reliability::Reliable { .. }) => false,
    }
}

/// Runtime rank on the durability order.
pub fn durability_rank(d: Durability) -> (n: u8)
    ensures
        n as int == durability_level(d),
{
    match d {
        Durability::Volatile => 0,
        Durability::TransientLocal => 1,
        Durability::Transient => 2,
        Durability::Persistent => 3,
    }
}

/// Runtime rank on the liveliness-kind order.
fn liveliness_rank(k: LivelinessKind) -> (n: u8)
    ensures
        n as int == liveliness_level(k),
{
    match k {
        LivelinessKind::Automatic => 0,
        LivelinessKind::ManualByTopic => 1,
        LivelinessKind::ManualByParticipant => 2,
    }
}

/// Resolves an offered against a requested policy set.
///
/// Deterministic and side-effect-free: the outcome is a pure function of
/// the two arguments, pinned by the postconditions below.
pub fn resolve(offered: &QosPolicySet, requested: &QosPolicySet) -> (res: Compatibility)
    ensures
        res is Compatible <==> compatible(*offered, *requested),
        res matches Compatibility::Compatible { effective } ==> effective == effective_qos(
            *offered,
            *requested,
        ),
        res matches Compatibility::Incompatible { reasons } ==> reasons@ == failing_kinds(
            *offered,
            *requested,
        ),
{
    let history_fits = check_history(offered, requested);
    let reliability_fits = check_reliability(offered, requested);
    let durability_fits = durability_rank(offered.durability) >= durability_rank(
        requested.durability,
    );
    let deadline_fits = offered.deadline_period <= requested.deadline_period;
    let liveliness_fits = liveliness_rank(offered.liveliness) >= liveliness_rank(
        requested.liveliness,
    ) && offered.liveliness_lease <= requested.liveliness_lease;
    if history_fits && reliability_fits && durability_fits && deadline_fits && liveliness_fits {
        let lifespan = if offered.lifespan_duration <= requested.lifespan_duration {
            offered.lifespan_duration
        } else {
            requested.lifespan_duration
        };
        Compatibility::Compatible {
            effective: QosPolicySet {
                history: requested.history,
                reliability: requested.reliability,
                durability: requested.durability,
                deadline_period: requested.deadline_period,
                lifespan_duration: lifespan,
                liveliness: requested.liveliness,
                liveliness_lease: requested.liveliness_lease,
            },
        }
    } else {
        let mut reasons: Vec<PolicyKind> = Vec::new();
        if !history_fits {
            reasons.push(PolicyKind::History);
        }
        if !reliability_fits {
            reasons.push(PolicyKind::Reliability);
        }
        if !durability_fits {
            reasons.push(PolicyKind::Durability);
        }
        if !deadline_fits {
            reasons.push(PolicyKind::Deadline);
        }
        if !liveliness_fits {
            reasons.push(PolicyKind::Liveliness);
        }
        proof {
            assert(reasons@ =~= failing_kinds(*offered, *requested));
        }
        Compatibility::Incompatible { reasons }
    }
}

/// Law: resolution is compatible exactly when every per-kind rule holds,
/// and flipping any single rule to fail puts that kind among the reported
/// reasons; a compatible pair reports no reason at all.
pub proof fn lemma_resolution_characterized(o: QosPolicySet, r: QosPolicySet)
    ensures
        compatible(o, r) <==> (history_ok(o, r) && reliability_ok(o, r) && durability_ok(o, r)
            && deadline_ok(o, r) && liveliness_ok(o, r)),
        !history_ok(o, r) ==> failing_kinds(o, r).contains(PolicyKind::History),
        !reliability_ok(o, r) ==> failing_kinds(o, r).contains(PolicyKind::Reliability),
        !durability_ok(o, r) ==> failing_kinds(o, r).contains(PolicyKind::Durability),
        !deadline_ok(o, r) ==> failing_kinds(o, r).contains(PolicyKind::Deadline),
        !liveliness_ok(o, r) ==> failing_kinds(o, r).contains(PolicyKind::Liveliness),
        forall|i: int| 0 <= i < failing_kinds(o, r).len() ==> !rule_holds(
            o,
            r,
            #[trigger] failing_kinds(o, r)[i],
        ),
        compatible(o, r) ==> failing_kinds(o, r).len() == 0,
        !compatible(o, r) ==> failing_kinds(o, r).len() >= 1,
{
    let ks = failing_kinds(o, r);
    if !history_ok(o, r) {
        assert(ks[0] == PolicyKind::History);
    }
    if !reliability_ok(o, r) {
        let i = if !history_ok(o, r) { 1int } else { 0int };
        assert(ks[i] == PolicyKind::Reliability);
    }
    if !durability_ok(o, r) {
        let i = (if !history_ok(o, r) { 1int } else { 0int }) + (if !reliability_ok(o, r) {
            1int
        } else {
            0int
        });
        assert(ks[i] == PolicyKind::Durability);
    }
    if !deadline_ok(o, r) {
        let i = (if !history_ok(o, r) { 1int } else { 0int }) + (if !reliability_ok(o, r) {
            1int
        } else {
            0int
        }) + (if !durability_ok(o, r) { 1int } else { 0int });
        assert(ks[i] == PolicyKind::Deadline);
    }
    if !liveliness_ok(o, r) {
        let i = ks.len() - 1;
        assert(ks[i] == PolicyKind::Liveliness);
    }
}

/// The rule of one policy kind, as used by the reason report.
pub open spec fn rule_holds(o: QosPolicySet, r: QosPolicySet, k: PolicyKind) -> bool {
    match k {
        PolicyKind::History => history_ok(o, r),
        PolicyKind::Reliability => reliability_ok(o, r),
        PolicyKind::Durability => durability_ok(o, r),
        PolicyKind::Deadline => deadline_ok(o, r),
        PolicyKind::Liveliness => liveliness_ok(o, r),
    }
}

} // verus!
