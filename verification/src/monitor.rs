//! Liveliness and deadline monitoring.
//!
//! Advisory status logic per endpoint: an endpoint is `Alive` while a
//! qualifying assertion (a write, or an explicit manual assertion) falls
//! within the liveliness lease, and `DeadlineMet` while consecutive
//! samples arrive within the deadline period.  Both are status signals
//! for observers, never errors, and never block traffic.

use vstd::prelude::*;
use crate::qos::DURATION_INFINITE;

verus! {

#[derive(Clone, Copy, PartialEq, Eq, Structural, Debug)]
pub enum LivelinessStatus {
    Alive,
    NotAlive,
}

#[derive(Clone, Copy, PartialEq, Eq, Structural, Debug)]
pub enum DeadlineStatus {
    DeadlineMet,
    DeadlineMissed,
}

/// An endpoint whose last qualifying assertion was at `last_assert` is
/// alive at `now` while the lease has not run out; an unbounded lease
/// never runs out.  Any qualifying assertion restarts the lease.
pub open spec fn alive_at(last_assert: u64, lease: u64, now: u64) -> bool {
    lease == DURATION_INFINITE || now <= last_assert + lease
}

/// The deadline is met at `now` while no more than `period` has passed
/// since the last sample at `last_write`; the next write restores it.
pub open spec fn deadline_met_at(last_write: u64, period: u64, now: u64) -> bool {
    period == DURATION_INFINITE || now <= last_write + period
}

/// Liveliness state at `now` of an endpoint whose last qualifying
/// assertion was at `last_assert`, under lease `lease`.
pub fn liveliness_status(last_assert: u64, lease: u64, now: u64) -> (st: LivelinessStatus)
    ensures
        st == LivelinessStatus::Alive <==> alive_at(last_assert, lease, now),
{
    if lease == DURATION_INFINITE || now <= last_assert || now - last_assert <= lease {
        LivelinessStatus::Alive
    } else {
        LivelinessStatus::NotAlive
    }
}

/// Deadline state at `now` of an endpoint whose last sample was written
/// or received at `last_write`, under deadline period `period`.
pub fn deadline_status(last_write: u64, period: u64, now: u64) -> (st: DeadlineStatus)
    ensures
        st == DeadlineStatus::DeadlineMet <==> deadline_met_at(last_write, period, now),
{
    if period == DURATION_INFINITE || now <= last_write || now - last_write <= period {
        DeadlineStatus::DeadlineMet
    } else {
        DeadlineStatus::DeadlineMissed
    }
}

/// Law: a qualifying assertion at `now` always restores liveliness and
/// restarts the lease, and a write at `now` always restores the deadline,
/// for the whole following period.
pub proof fn lemma_assertion_resets(lease: u64, period: u64, now: u64, later: u64)
    requires
        now <= later,
    ensures
        later <= now + lease || lease == DURATION_INFINITE ==> alive_at(now, lease, later),
        later <= now + period || period == DURATION_INFINITE ==> deadline_met_at(
            now,
            period,
            later,
        ),
        alive_at(now, lease, now),
        deadline_met_at(now, period, now),
{
}

} // verus!
