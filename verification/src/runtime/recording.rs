//! Whether a recording is in progress. Beginning one and taking it change that,
//! and nothing else does: no binder, no scope, and no other call on the runtime.

use vstd::prelude::*;

use crate::capture::CaptureView;
use crate::device::{DeviceOp, MtlSize, Pipeline};
use crate::dispatch::{pair_fn, Bind, BinderState, PassView};
use crate::runtime::storage::lemma_let_go_frame;
use crate::runtime::{
    closed_with, lemma_allocated_frame, lemma_committed_frame, lemma_handles_frame,
    lemma_recording_frame, lemma_taken_frame,
};
use crate::state::{launch_fn, succ_sat, ActiveBatch, RuntimeState};
use crate::tensor::{BufferKind, DType, Slab, Storage, Tensor};

verus! {

/// A recording is in progress.
pub open spec fn recording(s: RuntimeState) -> bool {
    s.capture is Some
}

/// The binder's scope is recorded.
pub open spec fn noting(b: BinderState) -> bool {
    b.capture is Some
}

// --------------------------------------------------------------- binders ---

/// Binding keeps whether the scope is recorded.
pub broadcast proof fn lemma_binds_note(b: BinderState, binds: Seq<Bind>, n: int)
    ensures
        noting(#[trigger] b.bound_to(binds, n)) == noting(b),
    decreases n,
{
    if n > 0 {
        lemma_binds_note(b, binds, n - 1);
    }
}

/// Nothing that is done with a binder begins or ends the recording of its scope.
pub proof fn law_binders_keep_the_recording(
    b: BinderState,
    p: Pipeline,
    slab: Slab,
    buf: Storage,
    t: Tensor,
    bytes: Seq<u8>,
    offset: usize,
    index: usize,
    number: u64,
    groups: MtlSize,
    threads: MtlSize,
    message: Seq<char>,
    op: DeviceOp,
)
    ensures
        noting(b.failed(message)) == noting(b),
        noting(b.with_op(op)) == noting(b),
        noting(b.piped(p)) == noting(b),
        noting(b.written(bytes).0) == noting(b),
        noting(b.bound_address(number, index)) == noting(b),
        noting(b.bound_slab(slab, offset, index)) == noting(b),
        noting(b.bound_bare(slab, offset, index)) == noting(b),
        noting(b.bound_at(buf, offset, index)) == noting(b),
        noting(b.bound_buffer(buf, index)) == noting(b),
        noting(b.bound_tensor(t, index)) == noting(b),
        noting(b.bound_bytes(bytes, index).0) == noting(b),
        noting(b.bound_resource(number, index)) == noting(b),
        noting(b.with_tg_mem(index, offset)) == noting(b),
        noting(b.with_table()) == noting(b),
        noting(b.adopted(number)) == noting(b),
        noting(b.with_barrier()) == noting(b),
        noting(b.dispatched(groups, threads)) == noting(b),
{
}

// ---------------------------------------------------------------- scopes ---

/// The binder of a scope is recorded where a recording is in progress.
pub proof fn lemma_scopes_note(s: RuntimeState, skip: Option<bool>)
    ensures
        s.scoped(skip).1.capture == s.capture,
{
    reveal(RuntimeState::scoped);
    reveal(RuntimeState::begun);
}

/// A recording that comes back from a scope goes on.
pub proof fn lemma_unscoped_records(s: RuntimeState, b: BinderState, outcome: Option<Seq<char>>)
    ensures
        recording(s.unscoped(b, outcome).0) == noting(b),
{
    reveal(RuntimeState::unscoped);
    let t = RuntimeState {
        busy: false,
        ops: b.ops,
        blob: b.blob,
        cursor: b.cursor,
        trace: b.trace,
        ..s
    };
    lemma_recording_frame(t, b.capture);
    let r = t.with_recording(b.capture);
    let batch = s.batch->0;
    let grown = ActiveBatch {
        dispatches: succ_sat(batch.dispatches),
        since_commit: succ_sat(batch.since_commit),
        ..batch
    };
    let u = RuntimeState { batch: Some(grown), ..r };
    lemma_committed_frame(u, false);
    lemma_committed_frame(u, true);
    lemma_committed_frame(u.committed(false), true);
}

/// A scope whose callback uses its binder, and puts no other in its place, keeps
/// whether a recording is in progress, whatever comes of it.
pub proof fn law_scopes_keep_the_recording(
    s: RuntimeState,
    skip: Option<bool>,
    b: BinderState,
    out: Result<(), String>,
    after: RuntimeState,
    r: Result<(), String>,
)
    requires
        noting(b) == noting(s.scoped(skip).1),
        closed_with(s.scoped(skip).0, b, out, after, r),
    ensures
        recording(after) == recording(s),
{
    lemma_scopes_note(s, skip);
    let outcome = match out {
        Ok(_) => None,
        Err(e) => Some(e@),
    };
    lemma_unscoped_records(s.scoped(skip).0, b, outcome);
}

/// So does a scope that is given as a function.
pub proof fn lemma_encoded_records(
    s: RuntimeState,
    skip: Option<bool>,
    f: spec_fn(BinderState) -> BinderState,
)
    requires
        forall|b: BinderState| noting(#[trigger] f(b)) == noting(b),
    ensures
        recording(s.encoded(skip, f).0) == recording(s),
{
    let (mid, b) = s.scoped(skip);
    lemma_scopes_note(s, skip);
    lemma_unscoped_records(mid, f(b), None);
}

/// One pass keeps whether the scope is recorded.
pub broadcast proof fn lemma_passes_note(p: PassView, b: BinderState)
    ensures
        noting(#[trigger] p.on(b)) == noting(b),
{
    broadcast use lemma_binds_note;

}

/// A producer and its consumer keep whether a recording is in progress.
pub broadcast proof fn lemma_pairs_record(
    s: RuntimeState,
    skip: Option<bool>,
    one: PassView,
    two: PassView,
)
    ensures
        recording((#[trigger] s.encoded(skip, pair_fn(one, two))).0) == recording(s),
{
    let f = pair_fn(one, two);
    assert forall|b: BinderState| noting(#[trigger] f(b)) == noting(b) by {
        let t = one.on(b);
        lemma_passes_note(one, b);
        lemma_passes_note(two, t);
        lemma_passes_note(two, t.with_barrier());
    }
    lemma_encoded_records(s, skip, f);
}

/// A launch keeps whether a recording is in progress.
pub broadcast proof fn lemma_launches_record(
    s: RuntimeState,
    p: Pipeline,
    binds: Seq<Bind>,
    tg_mem: Option<(usize, usize)>,
    groups: MtlSize,
    threads: MtlSize,
)
    ensures
        recording((#[trigger] s.launched(p, binds, tg_mem, groups, threads)).0) == recording(s),
{
    broadcast use lemma_binds_note;

    let f = launch_fn(p, binds, tg_mem, groups, threads);
    assert forall|b: BinderState| noting(#[trigger] f(b)) == noting(b) by {}
    lemma_encoded_records(s, None, f);
    reveal(RuntimeState::launched);
}

// --------------------------------------------------------------- runtime ---

/// An allocation keeps whether a recording is in progress.
pub broadcast proof fn lemma_allocations_record(s: RuntimeState, nbytes: usize, kind: BufferKind)
    ensures
        recording((#[trigger] s.allocated(nbytes, kind)).0) == recording(s),
{
    lemma_allocated_frame(s, nbytes, kind);
}

/// So does that of a tensor.
pub broadcast proof fn lemma_tensors_record(
    s: RuntimeState,
    shape: Seq<usize>,
    dtype: DType,
    kind: BufferKind,
)
    ensures
        recording((#[trigger] s.tensor_allocated(shape, dtype, kind)).0) == recording(s),
{
    broadcast use lemma_allocations_record;

    reveal(RuntimeState::tensor_allocated);
}

/// So does asking for a pipeline.
pub broadcast proof fn lemma_pipelines_record(s: RuntimeState, name: Seq<char>)
    ensures
        recording((#[trigger] s.piped(name)).0) == recording(s),
{
    reveal(RuntimeState::piped);
}

/// So does another handle.
pub broadcast proof fn lemma_sharing_records(s: RuntimeState, b: Storage)
    ensures
        recording(#[trigger] s.shared(b)) == recording(s),
{
    lemma_handles_frame(s, b);
}

/// So does one less.
pub broadcast proof fn lemma_retiring_records(s: RuntimeState, b: Storage)
    ensures
        recording(#[trigger] s.retired(b)) == recording(s),
{
    lemma_handles_frame(s, b);
}

/// So do several less.
pub broadcast proof fn lemma_letting_go_records(s: RuntimeState, all: Seq<Storage>, n: int)
    ensures
        recording(#[trigger] s.retired_to(all, n)) == recording(s),
{
    lemma_let_go_frame(s, all, n);
}

/// So do the handles of a tape.
pub broadcast proof fn lemma_taking_records(s: RuntimeState, all: Seq<Storage>, n: int)
    ensures
        recording((#[trigger] s.taken(all, n)).0) == recording(s),
{
    lemma_taken_frame(s, all, n);
}

/// So does a commit.
pub broadcast proof fn lemma_commits_record(s: RuntimeState, wait: bool)
    ensures
        recording(#[trigger] s.committed(wait)) == recording(s),
{
    lemma_committed_frame(s, wait);
}

/// What the steps of the library are made of.
pub broadcast group group_recording {
    lemma_launches_record,
    lemma_pairs_record,
    lemma_allocations_record,
    lemma_tensors_record,
    lemma_pipelines_record,
    lemma_sharing_records,
    lemma_retiring_records,
    lemma_letting_go_records,
    lemma_taking_records,
    lemma_commits_record,
}

/// A recording is in progress once it was begun, and until it is taken; there is
/// none to take where none is in progress.
pub proof fn law_recordings_begin_and_end(s: RuntimeState)
    ensures
        recording(s.capture_begun()),
        !recording(RuntimeState { capture: None, ..s }),
        !recording(s) ==> s.capture == None::<CaptureView>,
{
}

/// Nothing else on the runtime begins or ends one: not storage, not handles, not
/// commits, not pipelines, not the bump arena, and not the device's answers.
pub proof fn law_other_calls_keep_the_recording(
    s: RuntimeState,
    nbytes: usize,
    kind: BufferKind,
    shape: Seq<usize>,
    dtype: DType,
    buf: Storage,
    all: Seq<Storage>,
    wait: bool,
    name: Seq<char>,
    slab: u64,
    bytes: Seq<u8>,
    flag: bool,
    op: DeviceOp,
)
    ensures
        recording(s.registered(slab)) == recording(s),
        recording(s.unregistered(slab)) == recording(s),
        recording(s.flushed()) == recording(s),
        recording(s.allocated(nbytes, kind).0) == recording(s),
        recording(s.tensor_allocated(shape, dtype, kind).0) == recording(s),
        recording(s.shared(buf)) == recording(s),
        recording(s.retired(buf)) == recording(s),
        recording(s.let_go(all)) == recording(s),
        recording(s.taken(all, all.len() as int).0) == recording(s),
        recording(s.committed(wait)) == recording(s),
        recording(s.undone(op)) == recording(s),
        recording(s.confirmed(op)) == recording(s),
        recording(s.piped(name).0) == recording(s),
        recording(s.icb_piped(name).0) == recording(s),
        recording(s.icb_created(flag, nbytes).0) == recording(s),
        recording(s.table_created().0) == recording(s),
        recording(s.host_written(slab, bytes)) == recording(s),
        recording(s.bump_ensured(nbytes).0) == recording(s),
        recording(s.bumped(nbytes)) == recording(s),
        recording(s.bump_cleared()) == recording(s),
{
    broadcast use group_recording;

}

} // verus!
