//! Samples and per-endpoint history buffers.
//!
//! A [`HistoryBuffer`] is an ordered log of samples, bounded by the History
//! policy (`KeepLast { depth }` evicts the oldest entry on overflow — a
//! deliberate, documented data-loss mode for slow readers; `KeepAll` is
//! bounded only by the buffer's resource capacity) and additionally expired
//! by the Lifespan duration: entries past their lifespan become unreadable
//! even while still within depth.  Expiry runs lazily on every read and
//! write, so no operation ever returns an expired entry.

use vstd::prelude::*;
use vstd::seq_lib::group_filter_ensures;
use crate::qos::{History, DURATION_INFINITE};

verus! {

/// One immutable unit of published data: an opaque payload plus
/// provenance metadata (origin endpoint, per-publisher sequence number,
/// write timestamp in milliseconds).
#[derive(Debug)]
pub struct Sample {
    pub payload: String,
    /// Identity of the publisher that wrote the sample.
    pub source: u64,
    /// Monotonically increasing per-publisher sequence number.
    pub sequence_number: u64,
    /// Write timestamp (ms).
    pub timestamp: u64,
}

impl Sample {
    /// A value-equal copy, used when one sample is delivered to several
    /// subscription buffers.
    pub fn dup(&self) -> (r: Sample)
        ensures
            r == *self,
    {
        Sample {
            payload: self.payload.clone(),
            source: self.source,
            sequence_number: self.sequence_number,
            timestamp: self.timestamp,
        }
    }
}

/// A sample written at `timestamp` under lifespan `L` is expired once
/// `timestamp + L <= now`; an unbounded lifespan never expires.
pub open spec fn is_expired(s: Sample, lifespan: u64, now: u64) -> bool {
    lifespan != DURATION_INFINITE && s.timestamp + lifespan <= now
}

/// The readable entries of a log at `now`: those not expired, in order.
pub open spec fn live_view(s: Seq<Sample>, lifespan: u64, now: u64) -> Seq<Sample> {
    s.filter(|e: Sample| !is_expired(e, lifespan, now))
}

/// Filtering distributes over appending one element.
pub proof fn lemma_filter_push<A>(s: Seq<A>, pred: spec_fn(A) -> bool, x: A)
    ensures
        s.push(x).filter(pred) == (if pred(x) {
            s.filter(pred).push(x)
        } else {
            s.filter(pred)
        }),
{
    reveal(Seq::filter);
    assert(s.push(x).drop_last() =~= s);
    assert(s.push(x).last() == x);
}

pub proof fn lemma_live_view_empty(lifespan: u64, now: u64)
    ensures
        live_view(Seq::empty(), lifespan, now) == Seq::<Sample>::empty(),
{
    reveal(Seq::filter);
}

pub proof fn lemma_live_view_push(s: Seq<Sample>, lifespan: u64, now: u64, x: Sample)
    ensures
        live_view(s.push(x), lifespan, now) == (if is_expired(x, lifespan, now) {
            live_view(s, lifespan, now)
        } else {
            live_view(s, lifespan, now).push(x)
        }),
{
    reveal(Seq::filter);
    assert(s.push(x).drop_last() =~= s);
    assert(s.push(x).last() == x);
}

/// If nothing in a log is expired, the readable entries are the log.
pub proof fn lemma_live_view_identity(s: Seq<Sample>, lifespan: u64, now: u64)
    requires
        forall|i: int| 0 <= i < s.len() ==> !is_expired(#[trigger] s[i], lifespan, now),
    ensures
        live_view(s, lifespan, now) == s,
    decreases s.len(),
{
    reveal(Seq::filter);
    if s.len() > 0 {
        lemma_live_view_identity(s.drop_last(), lifespan, now);
        assert(s.drop_last().push(s.last()) =~= s);
        lemma_live_view_push(s.drop_last(), lifespan, now, s.last());
    } else {
        lemma_live_view_empty(lifespan, now);
        assert(s =~= Seq::<Sample>::empty());
    }
}

/// Law: a sample written at `t0` under lifespan `L` is readable at any
/// time before `t0 + L` and never readable at or after `t0 + L`, even
/// while still within History depth.
pub proof fn lemma_lifespan_expiry(s: Seq<Sample>, lifespan: u64, now: u64, x: Sample)
    ensures
        s.contains(x) && !is_expired(x, lifespan, now) ==> live_view(s, lifespan, now).contains(x),
        is_expired(x, lifespan, now) ==> !live_view(s, lifespan, now).contains(x),
{
    broadcast use group_filter_ensures;

    let pred = |e: Sample| !is_expired(e, lifespan, now);
    if s.contains(x) && !is_expired(x, lifespan, now) {
        let i = choose|i: int| 0 <= i < s.len() && s[i] == x;
        assert(pred(s[i]));
        assert(s.filter(pred).contains(s[i]));
    }
    if is_expired(x, lifespan, now) && live_view(s, lifespan, now).contains(x) {
        let j = choose|j: int|
            0 <= j < live_view(s, lifespan, now).len() && live_view(s, lifespan, now)[j] == x;
        assert(pred(s.filter(pred)[j]));
    }
}

/// Whether a buffer with the given policy and resource capacity can
/// accept one more sample when holding `held`: `KeepLast` always can (it
/// evicts), `KeepAll` only below capacity.
pub open spec fn accepts(h: History, capacity: usize, held: Seq<Sample>) -> bool {
    match h {
        History::KeepLast { .. } => true,
        History::KeepAll => held.len() < capacity,
    }
}

/// The retained entries after an accepted write of `x` over `held`:
/// `KeepLast` evicts the oldest entries down to `depth - 1` first (FIFO
/// eviction, independent of whether a reader consumed them).
pub open spec fn appended(h: History, held: Seq<Sample>, x: Sample) -> Seq<Sample> {
    match h {
        History::KeepLast { depth } => if held.len() >= depth {
            held.skip(held.len() - depth + 1).push(x)
        } else {
            held.push(x)
        },
        History::KeepAll => held.push(x),
    }
}

/// The retained entries after attempting to write `x`: unchanged when the
/// write is not accepted.
pub open spec fn after_write(h: History, capacity: usize, held: Seq<Sample>, x: Sample) -> Seq<
    Sample,
> {
    if accepts(h, capacity, held) {
        appended(h, held, x)
    } else {
        held
    }
}

/// The retained entries after attempting the writes `xs` in order,
/// starting from `init`, with no intervening reads or expiry.
pub open spec fn after_writes(h: History, capacity: usize, init: Seq<Sample>, xs: Seq<Sample>) -> Seq<
    Sample,
>
    decreases xs.len(),
{
    if xs.len() == 0 {
        init
    } else {
        after_write(h, capacity, after_writes(h, capacity, init, xs.drop_last()), xs.last())
    }
}

/// Folding one more write unrolls from the right.
pub proof fn lemma_after_writes_push(
    h: History,
    capacity: usize,
    init: Seq<Sample>,
    xs: Seq<Sample>,
    x: Sample,
)
    ensures
        after_writes(h, capacity, init, xs.push(x)) == after_write(
            h,
            capacity,
            after_writes(h, capacity, init, xs),
            x,
        ),
{
    assert(xs.push(x).drop_last() =~= xs);
    assert(xs.push(x).last() == x);
}

/// A write introduces no entry besides the written sample: everything
/// retained afterwards was either already held or is the sample itself.
pub proof fn lemma_after_write_elements(h: History, capacity: usize, held: Seq<Sample>, x: Sample)
    requires
        h matches History::KeepLast { depth } ==> depth >= 1,
    ensures
        forall|i: int|
            0 <= i < after_write(h, capacity, held, x).len() ==> (#[trigger] after_write(
                h,
                capacity,
                held,
                x,
            )[i]) == x || held.contains(after_write(h, capacity, held, x)[i]),
{
    let out = after_write(h, capacity, held, x);
    assert forall|i: int| 0 <= i < out.len() implies out[i] == x || held.contains(out[i]) by {
        if accepts(h, capacity, held) {
            match h {
                History::KeepLast { depth } => {
                    if held.len() >= depth {
                        if i < out.len() - 1 {
                            let base = held.len() - depth + 1;
                            let kept = held.skip(base);
                            assert(out == kept.push(x));
                            assert(out[i] == kept[i]);
                            assert(kept[i] == held[base + i]);
                            assert(held.contains(out[i]));
                        }
                    } else {
                        if i < out.len() - 1 {
                            assert(out[i] == held[i]);
                            assert(held.contains(out[i]));
                        }
                    }
                },
                History::KeepAll => {
                    if i < out.len() - 1 {
                        assert(out[i] == held[i]);
                        assert(held.contains(out[i]));
                    }
                },
            }
        } else {
            assert(out[i] == held[i]);
            assert(held.contains(out[i]));
        }
    }
}

/// The newest `n` entries of a log, in arrival order.
pub open spec fn newest_n(s: Seq<Sample>, n: int) -> Seq<Sample> {
    if n >= s.len() {
        s
    } else {
        s.skip(s.len() - n)
    }
}

pub proof fn lemma_keep_last_fold(depth: u64, capacity: usize, xs: Seq<Sample>)
    requires
        depth >= 1,
    ensures
        after_writes(History::KeepLast { depth }, capacity, Seq::empty(), xs) == newest_n(
            xs,
            depth as int,
        ),
    decreases xs.len(),
{
    let h = History::KeepLast { depth };
    if xs.len() == 0 {
    } else {
        let prior = xs.drop_last();
        lemma_keep_last_fold(depth, capacity, prior);
        let prev = after_writes(h, capacity, Seq::empty(), prior);
        let m = prior.len() as int;
        if m < depth {
            assert(prev == prior);
            assert(prev.push(xs.last()) =~= xs);
            if xs.len() > depth {
                assert(false);
            }
        } else {
            assert(prev == prior.skip(m - depth));
            assert(prev.len() == depth);
            assert(prev.skip(1).push(xs.last()) =~= xs.skip(xs.len() - depth));
        }
    }
}

/// Law: a `KeepLast { depth }` buffer that absorbs `depth + k` writes
/// (`k >= 1`, no reads, no expiry) retains exactly the last `depth`
/// samples, in arrival order; the first `k` are unrecoverable.
pub proof fn lemma_keep_last_window(depth: u64, capacity: usize, xs: Seq<Sample>)
    requires
        depth >= 1,
        depth as int <= xs.len(),
    ensures
        after_writes(History::KeepLast { depth }, capacity, Seq::empty(), xs) == xs.skip(
            xs.len() - depth as int,
        ),
        after_writes(History::KeepLast { depth }, capacity, Seq::empty(), xs).len() == depth,
{
    lemma_keep_last_fold(depth, capacity, xs);
}

/// What one pull returns: the oldest readable entry, if any.
pub open spec fn take_result(live: Seq<Sample>) -> Option<Sample> {
    if live.len() == 0 {
        None
    } else {
        Some(live[0])
    }
}

/// What a pull leaves behind.
pub open spec fn take_rest(live: Seq<Sample>) -> Seq<Sample> {
    if live.len() == 0 {
        live
    } else {
        live.skip(1)
    }
}

/// Law: a sample delivered into an empty buffer is taken exactly once —
/// the first pull yields it and a second pull before another write yields
/// nothing.
pub proof fn lemma_take_exactly_once(x: Sample, lifespan: u64, now: u64)
    requires
        !is_expired(x, lifespan, now),
    ensures
        take_result(live_view(Seq::empty().push(x), lifespan, now)) == Some(x),
        take_result(
            live_view(
                take_rest(live_view(Seq::empty().push(x), lifespan, now)),
                lifespan,
                now,
            ),
        ) is None,
{
    lemma_live_view_empty(lifespan, now);
    lemma_live_view_push(Seq::empty(), lifespan, now, x);
    let one = live_view(Seq::empty().push(x), lifespan, now);
    assert(one == Seq::<Sample>::empty().push(x));
    assert(one.len() == 1);
    assert(take_rest(one) =~= Seq::<Sample>::empty());
    lemma_live_view_empty(lifespan, now);
}

pub(crate) fn sample_expired(s: &Sample, lifespan: u64, now: u64) -> (r: bool)
    ensures
        r == is_expired(*s, lifespan, now),
{
    lifespan != DURATION_INFINITE && now >= lifespan && s.timestamp <= now - lifespan
}

/// The entries of `v` not expired at `now`, in order, as copies.
fn filter_live(v: &Vec<Sample>, lifespan: u64, now: u64) -> (r: Vec<Sample>)
    ensures
        r@ == live_view(v@, lifespan, now),
{
    let mut kept: Vec<Sample> = Vec::new();
    let mut i: usize = 0;
    proof {
        lemma_live_view_empty(lifespan, now);
        assert(v@.subrange(0, 0) =~= Seq::<Sample>::empty());
    }
    while i < v.len()
        invariant
            i <= v@.len(),
            kept@ == live_view(v@.subrange(0, i as int), lifespan, now),
        decreases v@.len() - i,
    {
        proof {
            assert(v@.subrange(0, i as int + 1) =~= v@.subrange(0, i as int).push(v@[i as int]));
            lemma_live_view_push(v@.subrange(0, i as int), lifespan, now, v@[i as int]);
        }
        let s = &v[i];
        if !sample_expired(s, lifespan, now) {
            kept.push(s.dup());
        }
        i += 1;
    }
    proof {
        assert(v@.subrange(0, v@.len() as int) =~= v@);
    }
    kept
}

/// A per-endpoint ordered log of retained samples, governed by a History
/// policy, a Lifespan duration and a resource capacity (the bound for
/// `KeepAll`, implementation-defined but never silently shrinking).
#[derive(Debug)]
pub struct HistoryBuffer {
    pub history: History,
    pub lifespan: u64,
    pub capacity: usize,
    pub entries: Vec<Sample>,
}

impl HistoryBuffer {
    /// Depth at least 1 for `KeepLast`, and retention within bounds.
    pub open spec fn wf(self) -> bool {
        match self.history {
            History::KeepLast { depth } => depth >= 1 && self.entries@.len() <= depth,
            History::KeepAll => self.entries@.len() <= self.capacity,
        }
    }

    /// The readable entries at `now`.
    pub open spec fn live(self, now: u64) -> Seq<Sample> {
        live_view(self.entries@, self.lifespan, now)
    }

    pub fn new(history: History, lifespan: u64, capacity: usize) -> (b: HistoryBuffer)
        requires
            history matches History::KeepLast { depth } ==> depth >= 1,
        ensures
            b.wf(),
            b.history == history,
            b.lifespan == lifespan,
            b.capacity == capacity,
            b.entries@ == Seq::<Sample>::empty(),
    {
        HistoryBuffer { history, lifespan, capacity, entries: Vec::new() }
    }

    /// Removes every entry whose lifespan has passed at `now`.
    pub fn evict_expired(&mut self, now: u64)
        requires
            old(self).wf(),
        ensures
            final(self).wf(),
            final(self).entries@ == old(self).live(now),
            final(self).history == old(self).history,
            final(self).lifespan == old(self).lifespan,
            final(self).capacity == old(self).capacity,
    {
        proof {
            broadcast use group_filter_ensures;

        }
        let kept = filter_live(&self.entries, self.lifespan, now);
        self.entries = kept;
    }

    /// Attempts to append `x`, evicting expired entries first and, under
    /// `KeepLast`, the oldest retained entry on overflow.  Returns whether
    /// the buffer accepted the sample; a full `KeepAll` buffer refuses.
    pub fn write(&mut self, x: Sample, now: u64) -> (accepted: bool)
        requires
            old(self).wf(),
        ensures
            final(self).wf(),
            accepted == accepts(old(self).history, old(self).capacity, old(self).live(now)),
            final(self).entries@ == after_write(
                old(self).history,
                old(self).capacity,
                old(self).live(now),
                x,
            ),
            final(self).history == old(self).history,
            final(self).lifespan == old(self).lifespan,
            final(self).capacity == old(self).capacity,
    {
        self.evict_expired(now);
        proof {
            broadcast use group_filter_ensures;

        }
        let ghost held = self.entries@;
        match self.history {
            History::KeepLast { depth } => {
                if self.entries.len() as u64 >= depth {
                    let _ = self.entries.remove(0);
                    proof {
                        assert(held.remove(0) =~= held.skip(held.len() - depth + 1));
                    }
                }
                self.entries.push(x);
                true
            },
            History::KeepAll => {
                if self.entries.len() < self.capacity {
                    self.entries.push(x);
                    true
                } else {
                    false
                }
            },
        }
    }

    /// Pull interface: removes and returns the oldest readable entry, or
    /// `None` when the buffer holds nothing readable (a normal empty
    /// result, not an error).
    pub fn take(&mut self, now: u64) -> (r: Option<Sample>)
        requires
            old(self).wf(),
        ensures
            final(self).wf(),
            r == take_result(old(self).live(now)),
            final(self).entries@ == take_rest(old(self).live(now)),
            final(self).history == old(self).history,
            final(self).lifespan == old(self).lifespan,
            final(self).capacity == old(self).capacity,
    {
        self.evict_expired(now);
        proof {
            broadcast use group_filter_ensures;

        }
        if self.entries.len() == 0 {
            None
        } else {
            let ghost held = self.entries@;
            let s = self.entries.remove(0);
            proof {
                assert(held.remove(0) =~= held.skip(1));
            }
            Some(s)
        }
    }

    /// The newest `n` readable entries at `now`, in arrival order, as
    /// copies; expired entries are evicted first.
    pub fn read_newest_n(&mut self, n: usize, now: u64) -> (r: Vec<Sample>)
        requires
            old(self).wf(),
        ensures
            final(self).wf(),
            final(self).entries@ == old(self).live(now),
            r@ == newest_n(old(self).live(now), n as int),
            final(self).history == old(self).history,
            final(self).lifespan == old(self).lifespan,
            final(self).capacity == old(self).capacity,
    {
        self.evict_expired(now);
        proof {
            broadcast use group_filter_ensures;

        }
        let len = self.entries.len();
        let start = if n >= len {
            0
        } else {
            len - n
        };
        let ghost held = self.entries@;
        let mut out: Vec<Sample> = Vec::new();
        let mut i = start;
        while i < len
            invariant
                start <= i <= len,
                len == self.entries@.len(),
                self.entries@ == held,
                out@ == held.subrange(start as int, i as int),
            decreases len - i,
        {
            proof {
                assert(held.subrange(start as int, i as int + 1) =~= held.subrange(
                    start as int,
                    i as int,
                ).push(held[i as int]));
            }
            let s = &self.entries[i];
            out.push(s.dup());
            i += 1;
        }
        proof {
            assert(out@ =~= newest_n(held, n as int));
        }
        out
    }

    /// Number of retained entries, expired ones included until the next
    /// read or write evicts them.
    pub fn len(&self) -> (n: usize)
        ensures
            n == self.entries@.len(),
    {
        self.entries.len()
    }
}

} // verus!
