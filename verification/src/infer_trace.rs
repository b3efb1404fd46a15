//! Lightweight inference-path counters. Off by default: nothing is counted
//! until [`set_enabled`] turns them on.

use vstd::prelude::*;

verus! {

/// The counters of one token.
#[derive(Clone, Copy, Debug, PartialEq, Eq, Structural)]
pub struct Snapshot {
    pub dispatches: u64,
    pub barriers: u64,
    pub commits: u64,
    pub cold_allocs: u64,
    pub sync_wait_us: u64,
    pub residency_flushes: u64,
}

/// All counters at zero.
pub open spec fn zero_snapshot() -> Snapshot {
    Snapshot {
        dispatches: 0,
        barriers: 0,
        commits: 0,
        cold_allocs: 0,
        sync_wait_us: 0,
        residency_flushes: 0,
    }
}

impl Default for Snapshot {
    fn default() -> (s: Snapshot)
        ensures
            s == zero_snapshot(),
    {
        Snapshot {
            dispatches: 0,
            barriers: 0,
            commits: 0,
            cold_allocs: 0,
            sync_wait_us: 0,
            residency_flushes: 0,
        }
    }
}

/// The counters and their switch.
#[derive(Clone, Copy, Debug, PartialEq, Eq, Structural)]
pub struct InferTrace {
    pub enabled: bool,
    pub counts: Snapshot,
}

/// One more, modulo the counter's width.
pub open spec fn bumped(n: u64, by: u64) -> u64 {
    ((n + by) % 0x1_0000_0000_0000_0000) as u64
}

/// What can be counted.
#[derive(Clone, Copy, Debug, PartialEq, Eq, Structural)]
pub enum TraceEvent {
    Dispatch,
    Barrier,
    Commit,
    ColdAlloc,
    ResidencyFlush,
}

impl InferTrace {
    /// Off, with all counters at zero.
    pub fn new() -> (t: InferTrace)
        ensures
            !t.enabled,
            t.counts == zero_snapshot(),
    {
        InferTrace { enabled: false, counts: Snapshot::default() }
    }

    /// This trace after `event`: one counter moves, and only while enabled.
    pub open spec fn after(self, event: TraceEvent) -> InferTrace {
        if !self.enabled {
            self
        } else {
            let c = self.counts;
            let counts = match event {
                TraceEvent::Dispatch => Snapshot { dispatches: bumped(c.dispatches, 1), ..c },
                TraceEvent::Barrier => Snapshot { barriers: bumped(c.barriers, 1), ..c },
                TraceEvent::Commit => Snapshot { commits: bumped(c.commits, 1), ..c },
                TraceEvent::ColdAlloc => Snapshot { cold_allocs: bumped(c.cold_allocs, 1), ..c },
                TraceEvent::ResidencyFlush => Snapshot {
                    residency_flushes: bumped(c.residency_flushes, 1),
                    ..c
                },
            };
            InferTrace { counts, ..self }
        }
    }
}

fn bump(n: u64, by: u64) -> (r: u64)
    ensures
        r == bumped(n, by),
{
    let r: u64 = n.wrapping_add(by);
    r
}

/// Turns counting on or off.
pub fn set_enabled(t: &mut InferTrace, on: bool)
    ensures
        *final(t) == (InferTrace { enabled: on, ..*old(t) }),
{
    t.enabled = on;
}

/// Whether counting is on.
pub fn enabled(t: &InferTrace) -> (r: bool)
    ensures
        r == t.enabled,
{
    t.enabled
}

/// Zeroes every counter; the switch stays.
pub fn reset_token_counters(t: &mut InferTrace)
    ensures
        *final(t) == (InferTrace { counts: zero_snapshot(), ..*old(t) }),
{
    t.counts = Snapshot::default();
}

/// The counters as they stand.
pub fn snapshot(t: &InferTrace) -> (s: Snapshot)
    ensures
        s == t.counts,
{
    t.counts
}

/// Counts a dispatch.
pub fn on_dispatch(t: &mut InferTrace)
    ensures
        *final(t) == old(t).after(TraceEvent::Dispatch),
{
    if t.enabled {
        t.counts.dispatches = bump(t.counts.dispatches, 1);
    }
}

/// Counts a barrier.
pub fn on_barrier(t: &mut InferTrace)
    ensures
        *final(t) == old(t).after(TraceEvent::Barrier),
{
    if t.enabled {
        t.counts.barriers = bump(t.counts.barriers, 1);
    }
}

/// Counts a commit.
pub fn on_commit(t: &mut InferTrace)
    ensures
        *final(t) == old(t).after(TraceEvent::Commit),
{
    if t.enabled {
        t.counts.commits = bump(t.counts.commits, 1);
    }
}

/// Counts a cold allocation.
pub fn on_cold_alloc(t: &mut InferTrace)
    ensures
        *final(t) == old(t).after(TraceEvent::ColdAlloc),
{
    if t.enabled {
        t.counts.cold_allocs = bump(t.counts.cold_allocs, 1);
    }
}

/// Counts a residency flush.
pub fn on_residency_flush(t: &mut InferTrace)
    ensures
        *final(t) == old(t).after(TraceEvent::ResidencyFlush),
{
    if t.enabled {
        t.counts.residency_flushes = bump(t.counts.residency_flushes, 1);
    }
}

/// Adds `micros` of waiting for the device.
pub fn record_sync_wait(t: &mut InferTrace, micros: u64)
    ensures
        *final(t) == if old(t).enabled {
            InferTrace {
                counts: Snapshot {
                    sync_wait_us: bumped(old(t).counts.sync_wait_us, micros),
                    ..old(t).counts
                },
                ..*old(t)
            }
        } else {
            *old(t)
        },
{
    if t.enabled {
        t.counts.sync_wait_us = bump(t.counts.sync_wait_us, micros);
    }
}

/// While counting is off no event changes anything.
pub proof fn law_disabled_counts_nothing(t: InferTrace, event: TraceEvent)
    requires
        !t.enabled,
    ensures
        t.after(event) == t,
{
}

} // verus!
