//! What the runtime promises across calls.

use vstd::prelude::*;

use crate::dispatch::BinderState;
use crate::runtime::{lemma_committed_frame, lemma_recording_frame};
use crate::sizes::{ints, product};
use crate::state::{RuntimeState, BATCH_DISPATCH_CAP};
use crate::tensor::BufferKind;

verus! {

/// After a waiting commit nothing is left over: no batch, no command buffer in
/// flight, no retired slab, and an empty constant arena.
pub proof fn law_waiting_settles(s: RuntimeState)
    requires
        s.wf(),
    ensures
        s.committed(true).batch is None,
        s.committed(true).allocators.in_flight_a == 0,
        s.committed(true).allocators.in_flight_b == 0,
        s.committed(true).pending.len() == 0,
        s.committed(true).cursor == 0,
{
    lemma_committed_frame(s, true);
    reveal(RuntimeState::committed);
    match s.batch {
        None => {
            crate::runtime::lemma_drained_whole_frame(s);
        },
        Some(b) => {
            if !b.cb_open {
                crate::runtime::lemma_drained_whole_frame(
                    RuntimeState { batch: None, cursor: 0, ..s.caught_up() },
                );
            } else {
                crate::runtime::lemma_drained_whole_frame(
                    s.submitted(b, b.stamped_t0).settled(b.stamped_t0),
                );
            }
        },
    }
}

/// A second waiting commit has nothing to do.
pub proof fn law_waiting_twice_is_once(s: RuntimeState)
    requires
        s.wf(),
    ensures
        s.committed(true).committed(true) == s.committed(true),
{
    law_waiting_settles(s);
    reveal(RuntimeState::committed);
    reveal(RuntimeState::drained);
}

/// A runtime that is poisoned, or whose lease is taken, has nothing encoded on
/// it: the state stays as it is, whatever the scope would have done.
pub proof fn law_refused_runtimes_encode_nothing(
    s: RuntimeState,
    skip: Option<bool>,
    f: spec_fn(BinderState) -> BinderState,
)
    requires
        s.failed || s.busy,
    ensures
        s.encoded(skip, f).0 == s,
        !s.icb.encode_nop ==> s.encoded(skip, f).1 is Some,
{
}

/// While encoding is a no-op a scope changes nothing and reports nothing.
pub proof fn law_no_op_scopes_change_nothing(
    s: RuntimeState,
    skip: Option<bool>,
    f: spec_fn(BinderState) -> BinderState,
)
    requires
        s.icb.encode_nop,
    ensures
        s.encoded(skip, f) == (s, None::<Seq<char>>),
{
}

/// A scope that fails, in its callback or in its binder, poisons the runtime
/// for good: the first failure is reported, and every later access is refused.
pub proof fn law_failures_poison(s: RuntimeState, b: BinderState, outcome: Option<Seq<char>>)
    requires
        outcome is Some || b.error is Some,
    ensures
        s.unscoped(b, outcome).1 == (if outcome is Some {
            outcome
        } else {
            b.error
        }),
        s.unscoped(b, outcome).0.access_problem() == Some(crate::state::poisoned_message()),
        s.unscoped(b, outcome).0.committed(true).failed,
        s.unscoped(b, outcome).0.committed(false).failed,
{
    reveal(RuntimeState::unscoped);
    lemma_committed_frame(s.unscoped(b, outcome).0, true);
    lemma_committed_frame(s.unscoped(b, outcome).0, false);
}

/// In synchronous mode a scope that succeeds leaves nothing in flight; in
/// asynchronous mode its batch stays below the threshold of a mid-step commit
/// and below the cap.
pub proof fn law_scopes_bound_their_batch(s: RuntimeState, b: BinderState)
    requires
        s.batch is Some,
        b.error is None,
    ensures
        !s.async_encode ==> s.unscoped(b, None).0.batch is None,
        s.async_encode ==> {
            let after = s.unscoped(b, None).0.batch;
            &&& after is Some
            &&& s.mid_commit > 0 && s.batch->0.cb_open ==> after->0.since_commit < s.mid_commit
            &&& s.batch->0.cb_open && after->0.dispatches >= BATCH_DISPATCH_CAP
                ==> !after->0.cb_open
        },
{
    reveal(RuntimeState::unscoped);
    reveal(RuntimeState::committed);
    let old_batch = s.batch->0;
    let batch = crate::state::ActiveBatch {
        dispatches: crate::state::succ_sat(old_batch.dispatches),
        since_commit: crate::state::succ_sat(old_batch.since_commit),
        ..old_batch
    };
    let back = RuntimeState {
        busy: false,
        ops: b.ops,
        blob: b.blob,
        cursor: b.cursor,
        trace: b.trace,
        ..s
    };
    lemma_recording_frame(back, b.capture);
    let t = RuntimeState { batch: Some(batch), ..back.with_recording(b.capture) };
    lemma_committed_frame(t, false);
    lemma_committed_frame(t, true);
    lemma_committed_frame(t.committed(false), true);
}

/// A command buffer is begun only on an allocator that the device is done
/// with: where both are in use, the earlier one is waited for.
pub proof fn law_allocators_are_free_when_reused(s: RuntimeState)
    requires
        !s.cb_open(),
    ensures
        ({
            let t = s.begun();
            &&& t.cb_open()
            &&& t.batch->0.alloc_idx == t.allocators.active
            &&& t.allocators.active == 0 ==> t.allocators.in_flight_a == 0
            &&& t.allocators.active == 1 ==> t.allocators.in_flight_b == 0
            &&& t.allocators.active < 2
        }),
{
    reveal(RuntimeState::begun);
}

/// Bump allocations sit at multiples of 16 inside the slab, each behind the one
/// before it.
pub proof fn law_bump_allocations_do_not_overlap(
    s: RuntimeState,
    first: Seq<usize>,
    second: Seq<usize>,
)
    requires
        s.wf(),
        s.bump_problem(first) is None,
        ({
            let n = product(ints(first)) * 4;
            s.bumped(n as usize).bump_problem(second) is None
        }),
    ensures
        ({
            let n = product(ints(first)) * 4;
            let m = product(ints(second)) * 4;
            let t = s.bumped(n as usize);
            &&& s.bump_start() % 16 == 0
            &&& t.bump_start() % 16 == 0
            &&& s.bump->0.cursor <= s.bump_start()
            &&& s.bump_start() + n <= t.bump_start()
            &&& t.bump_start() + m <= s.bump->0.capacity
            &&& t.bump->0.buffer == s.bump->0.buffer
        }),
{
    crate::sizes::lemma_product_nonneg(ints(first), first.len() as int);
    let n = product(ints(first)) * 4;
    assert(product(ints(first)) >= 0);
    reveal(RuntimeState::shared);
}

/// Fresh slabs get device addresses and numbers that no slab had before: each
/// starts where the one before it ended, or later.
pub proof fn law_slabs_do_not_overlap(
    s: RuntimeState,
    nbytes: usize,
    kind: BufferKind,
    later: RuntimeState,
    more: usize,
    other: BufferKind,
)
    requires
        ({
            let (t, a) = s.allocated(nbytes, kind);
            let (u, b) = later.allocated(more, other);
            &&& a is Ok && t.serials.slab > s.serials.slab
            &&& b is Ok && u.serials.slab > later.serials.slab
            &&& later.serials.slab >= t.serials.slab
            &&& later.serials.address >= t.serials.address
        }),
    ensures
        ({
            let x = s.allocated(nbytes, kind).1->Ok_0.slab;
            let y = later.allocated(more, other).1->Ok_0.slab;
            &&& x.id < y.id
            &&& x.address + x.length <= y.address
        }),
{
    reveal(RuntimeState::allocated);
}

/// An allocation covers its request, from a slab whose length is a power of two
/// of at least 256 bytes, and never goes past the device's limit.
pub proof fn law_allocations_cover_their_request(s: RuntimeState, nbytes: usize, kind: BufferKind)
    requires
        s.wf(),
        s.allocated(nbytes, kind).1 is Ok,
    ensures
        ({
            let buf = s.allocated(nbytes, kind).1->Ok_0;
            &&& buf.nbytes == nbytes
            &&& buf.wf()
            &&& buf.kind == kind
            &&& buf.runtime == s.id
            &&& nbytes <= s.info.max_buffer_length
        }),
{
    reveal(RuntimeState::allocated);
    crate::pool::law_grants_are_long_enough(s.pool, nbytes as int);
}

} // verus!
