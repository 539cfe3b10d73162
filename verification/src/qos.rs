//! Quality-of-service policy sets.
//!
//! A [`QosPolicySet`] is an immutable value describing the contract an
//! endpoint offers (publisher side) or requests (subscriber side) for a
//! topic.  Durations are in milliseconds; [`DURATION_INFINITE`] is the
//! sentinel for "no limit".  Every policy kind has a documented default, so
//! a partially specified set built through [`QosPolicyBuilder`] is always
//! resolvable to concrete values.

use vstd::prelude::*;

verus! {

/// Sentinel duration (milliseconds) meaning "no limit".
pub const DURATION_INFINITE: u64 = u64::MAX;

/// History policy: how many samples an endpoint's buffer retains.
///
/// `KeepLast { depth }` keeps the newest `depth` samples, evicting the
/// oldest on overflow; `KeepAll` keeps every sample up to the buffer's
/// resource capacity.
#[derive(Clone, Copy, PartialEq, Eq, Structural, Debug)]
pub enum History {
    KeepLast { depth: u64 },
    KeepAll,
}

/// Reliability policy: `Reliable` delivery blocks for at most
/// `max_blocking_time` milliseconds and reports a per-peer error when a
/// peer cannot accept within that bound; `BestEffort` drops silently.
#[derive(Clone, Copy, PartialEq, Eq, Structural, Debug)]
pub enum Reliability {
    BestEffort,
    Reliable { max_blocking_time: u64 },
}

/// Durability policy, ordered `Volatile < TransientLocal < Transient <
/// Persistent`.  From `TransientLocal` upward a publisher's retained
/// history is delivered to late-joining subscriptions.
#[derive(Clone, Copy, PartialEq, Eq, Structural, Debug)]
pub enum Durability {
    Volatile,
    TransientLocal,
    Transient,
    Persistent,
}

/// Liveliness assertion kind, ordered `Automatic < ManualByTopic <
/// ManualByParticipant`.
#[derive(Clone, Copy, PartialEq, Eq, Structural, Debug)]
pub enum LivelinessKind {
    Automatic,
    ManualByTopic,
    ManualByParticipant,
}

/// A fully resolved set of policy values, one per policy kind.
///
/// Immutable once an endpoint has been built from it.
#[derive(Clone, Copy, PartialEq, Eq, Structural, Debug)]
pub struct QosPolicySet {
    pub history: History,
    pub reliability: Reliability,
    pub durability: Durability,
    /// Deadline: greatest accepted gap (ms) between consecutive samples.
    pub deadline_period: u64,
    /// Lifespan: samples older than this (ms) become unreadable.
    pub lifespan_duration: u64,
    pub liveliness: LivelinessKind,
    /// Lease (ms) within which a liveliness assertion must recur.
    pub liveliness_lease: u64,
}

impl QosPolicySet {
    /// A policy set is valid when `KeepLast` has depth at least 1.
    pub open spec fn valid(self) -> bool {
        match self.history {
            History::KeepLast { depth } => depth >= 1,
            History::KeepAll => true,
        }
    }

    /// Runtime check of [`QosPolicySet::valid`].
    pub fn is_valid(&self) -> (r: bool)
        ensures
            r == self.valid(),
    {
        match self.history {
            History::KeepLast { depth } => depth >= 1,
            History::KeepAll => true,
        }
    }
}

/// The default policy values: `KeepLast { depth: 1 }`, `BestEffort`,
/// `Volatile`, no deadline, no lifespan bound, `Automatic` liveliness with
/// an unbounded lease.
pub open spec fn default_qos() -> QosPolicySet {
    QosPolicySet {
        history: History::KeepLast { depth: 1 },
        reliability: Reliability::BestEffort,
        durability: Durability::Volatile,
        deadline_period: DURATION_INFINITE,
        lifespan_duration: DURATION_INFINITE,
        liveliness: LivelinessKind::Automatic,
        liveliness_lease: DURATION_INFINITE,
    }
}

/// Builder for a [`QosPolicySet`].  Each policy kind left unset falls back
/// to its default from [`default_qos`].
#[derive(Clone, Copy)]
pub struct QosPolicyBuilder {
    pub history: Option<History>,
    pub reliability: Option<Reliability>,
    pub durability: Option<Durability>,
    pub deadline_period: Option<u64>,
    pub lifespan_duration: Option<u64>,
    pub liveliness: Option<LivelinessKind>,
    pub liveliness_lease: Option<u64>,
}

impl QosPolicyBuilder {
    /// A builder with every policy kind unset.
    pub fn new() -> (b: QosPolicyBuilder)
        ensures
            b.history is None,
            b.reliability is None,
            b.durability is None,
            b.deadline_period is None,
            b.lifespan_duration is None,
            b.liveliness is None,
            b.liveliness_lease is None,
    {
        QosPolicyBuilder {
            history: None,
            reliability: None,
            durability: None,
            deadline_period: None,
            lifespan_duration: None,
            liveliness: None,
            liveliness_lease: None,
        }
    }

    pub fn history(self, h: History) -> (b: QosPolicyBuilder)
        ensures
            b == (QosPolicyBuilder { history: Some(h), ..self }),
    {
        QosPolicyBuilder { history: Some(h), ..self }
    }

    pub fn reliability(self, r: Reliability) -> (b: QosPolicyBuilder)
        ensures
            b == (QosPolicyBuilder { reliability: Some(r), ..self }),
    {
        QosPolicyBuilder { reliability: Some(r), ..self }
    }

    pub fn durability(self, d: Durability) -> (b: QosPolicyBuilder)
        ensures
            b == (QosPolicyBuilder { durability: Some(d), ..self }),
    {
        QosPolicyBuilder { durability: Some(d), ..self }
    }

    pub fn deadline(self, period: u64) -> (b: QosPolicyBuilder)
        ensures
            b == (QosPolicyBuilder { deadline_period: Some(period), ..self }),
    {
        QosPolicyBuilder { deadline_period: Some(period), ..self }
    }

    pub fn lifespan(self, duration: u64) -> (b: QosPolicyBuilder)
        ensures
            b == (QosPolicyBuilder { lifespan_duration: Some(duration), ..self }),
    {
        QosPolicyBuilder { lifespan_duration: Some(duration), ..self }
    }

    pub fn liveliness(self, kind: LivelinessKind, lease: u64) -> (b: QosPolicyBuilder)
        ensures
            b == (QosPolicyBuilder {
                liveliness: Some(kind),
                liveliness_lease: Some(lease),
                ..self
            }),
    {
        QosPolicyBuilder { liveliness: Some(kind), liveliness_lease: Some(lease), ..self }
    }

    /// The policy set this builder describes: every unset kind is its
    /// default.
    pub open spec fn built(self) -> QosPolicySet {
        QosPolicySet {
            history: if self.history is Some {
                self.history->0
            } else {
                default_qos().history
            },
            reliability: if self.reliability is Some {
                self.reliability->0
            } else {
                default_qos().reliability
            },
            durability: if self.durability is Some {
                self.durability->0
            } else {
                default_qos().durability
            },
            deadline_period: if self.deadline_period is Some {
                self.deadline_period->0
            } else {
                default_qos().deadline_period
            },
            lifespan_duration: if self.lifespan_duration is Some {
                self.lifespan_duration->0
            } else {
                default_qos().lifespan_duration
            },
            liveliness: if self.liveliness is Some {
                self.liveliness->0
            } else {
                default_qos().liveliness
            },
            liveliness_lease: if self.liveliness_lease is Some {
                self.liveliness_lease->0
            } else {
                default_qos().liveliness_lease
            },
        }
    }

    /// Resolves the builder to a concrete policy set, filling defaults.
    pub fn build(self) -> (q: QosPolicySet)
        ensures
            q == self.built(),
    {
        QosPolicySet {
            history: match self.history {
                Some(h) => h,
                None => History::KeepLast { depth: 1 },
            },
            reliability: match self.reliability {
                Some(r) => r,
                None => Reliability::BestEffort,
            },
            durability: match self.durability {
                Some(d) => d,
                None => Durability::Volatile,
            },
            deadline_period: match self.deadline_period {
                Some(p) => p,
                None => DURATION_INFINITE,
            },
            lifespan_duration: match self.lifespan_duration {
                Some(l) => l,
                None => DURATION_INFINITE,
            },
            liveliness: match self.liveliness {
                Some(k) => k,
                None => LivelinessKind::Automatic,
            },
            liveliness_lease: match self.liveliness_lease {
                Some(l) => l,
                None => DURATION_INFINITE,
            },
        }
    }
}

} // verus!
