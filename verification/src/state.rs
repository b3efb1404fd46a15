//! The runtime as data: every operation of [`crate::runtime::GpuRuntime`] is a
//! function on [`RuntimeState`], and its contract says so.

use vstd::prelude::*;

use crate::ab_flags::AbFlags;
use crate::capture::CaptureView;
use crate::device::{DeviceInfo, DeviceOp, Kernel, MtlSize, Pipeline};
use crate::dispatch::{fresh_binder, Bind, BinderState};
use crate::icb_flags::IcbFlags;
use crate::infer_trace::{InferTrace, TraceEvent};
use crate::pool::{forgotten, is_bucket, numbered, Grant, PoolState};
use crate::sizes::{ints, most, pow2_ceil, product};
use crate::tensor::{shape_problem, BufferKind, DType, Slab, Storage};
use crate::text::{decimal, first, unless};

verus! {

/// Probed device memory budget.
#[derive(Clone, Copy, Debug, PartialEq, Eq, Structural)]
pub struct DeviceMemoryInfo {
    pub recommended_working_set: u64,
    pub memory_size: u64,
    pub wired_budget: u64,
    pub pool_cache_cap: usize,
}

/// Precision mode of the training hot path.
#[derive(Clone, Copy, Debug, PartialEq, Eq, Structural)]
pub enum PrecisionMode {
    /// All storage and compute in f32.
    F32,
    /// bf16 storage and compute, f32 accumulation.
    Bf16,
}

/// Precision and kernel-family choices.
#[derive(Clone, Copy, Debug, PartialEq, Eq, Structural)]
pub struct Settings {
    pub precision: PrecisionMode,
    pub relaxed_precision: bool,
    pub flash_tensorops: bool,
}

/// The command buffer of the current step.
#[derive(Clone, Copy, Debug, PartialEq, Eq, Structural)]
pub struct ActiveBatch {
    pub dispatches: usize,
    /// Dispatches since the last commit.
    pub since_commit: usize,
    pub cb_open: bool,
    pub stamped_t0: bool,
    /// The packed compute encoder is open.
    pub encoder: bool,
    pub alloc_idx: usize,
}

/// The two command allocators, each with the event value it waits for (0 when
/// free), and the value signalled last.
#[derive(Clone, Copy, Debug, PartialEq, Eq, Structural)]
pub struct Allocators {
    pub in_flight_a: u64,
    pub in_flight_b: u64,
    pub active: usize,
    pub event: u64,
}

/// A slab that some handle names.
#[derive(Clone, Copy, Debug, PartialEq, Eq, Structural)]
pub struct Held {
    pub slab: Slab,
    pub kind: BufferKind,
    /// Handles of the slab; stuck once it is at the top.
    pub owners: u64,
}

/// The bump arena. The runtime has a handle of its slab.
#[derive(Clone, Copy, Debug, PartialEq, Eq, Structural)]
pub struct BumpState {
    pub buffer: Storage,
    pub cursor: usize,
    pub capacity: usize,
}

/// Next numbers to give out.
#[derive(Clone, Copy, Debug, PartialEq, Eq, Structural)]
pub struct Serials {
    pub slab: u64,
    pub address: u64,
    pub table: u64,
    pub icb: u64,
}

/// Residency bookkeeping.
#[derive(Clone, Copy, Debug, PartialEq, Eq, Structural)]
pub struct Residency {
    pub count: usize,
    pub dirty: bool,
}

/// Hard cap of dispatches in one batch before it commits by itself.
pub const BATCH_DISPATCH_CAP: usize = 100000;

/// Default cap of cached slabs.
pub const DEFAULT_POOL_CACHE_BYTES: usize = 2147483648;

/// A runtime as data.
#[verifier::ext_equal]
pub struct RuntimeState {
    pub id: u64,
    pub info: DeviceInfo,
    pub kernels: Seq<Kernel>,
    /// Libraries added after the primary one.
    pub overlays: usize,
    /// Pipelines already built.
    pub built: Seq<Pipeline>,
    /// The exclusive lease is taken.
    pub busy: bool,
    /// An encode or submit failed; nothing can be encoded again.
    pub failed: bool,
    pub pool: PoolState,
    pub bump: Option<BumpState>,
    /// Arenas that others took the place of, the latest last. Each is kept until
    /// the device has made the slab that came after it.
    pub replaced: Seq<BumpState>,
    pub async_encode: bool,
    pub batch: Option<ActiveBatch>,
    pub allocators: Allocators,
    /// First free byte of the constant arena.
    pub cursor: int,
    pub ops: Seq<DeviceOp>,
    pub blob: Seq<u8>,
    pub dispatch_count: usize,
    pub settings: Settings,
    pub residency: Residency,
    /// Slabs whose last owner let go, waiting for the device to catch up.
    pub pending: Seq<Slab>,
    /// The slabs that handles name, by their numbers.
    pub held: Map<u64, Held>,
    pub memory: DeviceMemoryInfo,
    pub stamps: Option<(u64, u64)>,
    pub serials: Serials,
    /// Dispatches after which a batch commits without waiting; 0 for never.
    pub mid_commit: usize,
    pub ab: AbFlags,
    pub icb: IcbFlags,
    pub trace: InferTrace,
    pub capture: Option<CaptureView>,
}

/// One more, or stuck at the top.
pub open spec fn succ_sat(n: usize) -> usize {
    if n == usize::MAX {
        n
    } else {
        (n + 1) as usize
    }
}

/// The next event value, or stuck at the top.
pub open spec fn succ_event(n: u64) -> u64 {
    if n == u64::MAX {
        n
    } else {
        (n + 1) as u64
    }
}

/// First kernel named `name` from entry `i` on.
pub open spec fn kernel_from(kernels: Seq<Kernel>, name: Seq<char>, overlay: Option<bool>, i: int) -> int
    decreases kernels.len() - i,
{
    if i < 0 || i >= kernels.len() {
        -1
    } else if kernels[i].name@ == name && (match overlay {
        None => true,
        Some(o) => o == (kernels[i].library > 0),
    }) {
        i
    } else {
        kernel_from(kernels, name, overlay, i + 1)
    }
}

/// The pipeline of catalog entry `i`.
pub open spec fn pipeline_of(kernels: Seq<Kernel>, i: int, icb: bool) -> Pipeline {
    Pipeline {
        kernel: i as usize,
        icb,
        thread_execution_width: kernels[i].thread_execution_width,
        max_threads: kernels[i].max_threads,
    }
}

/// The pipelines without the build of a kernel.
pub open spec fn unbuilt(built: Seq<Pipeline>, kernel: usize, indirect: bool) -> Seq<Pipeline> {
    built.filter(|p: Pipeline| !(p.kernel == kernel && p.icb == indirect))
}

/// Message of an absent kernel.
pub open spec fn missing_kernel(name: Seq<char>) -> Seq<char> {
    "kernel '"@ + name + "' not found in metallib"@
}

/// Message of a kernel without an indirect-command-buffer build.
pub open spec fn not_icb_capable(name: Seq<char>) -> Seq<char> {
    "ICB pipeline '"@ + name + "' supportIndirectCommandBuffers=false"@
}

/// Message of a runtime that failed before.
pub open spec fn poisoned_message() -> Seq<char> {
    "runtime is poisoned after encode/submit failure; recreate it"@
}

/// Message of a runtime whose lease is taken.
pub open spec fn busy_message() -> Seq<char> {
    "runtime busy: another host mapping, encoder, or submit is active"@
}

/// The least of the waits that frees an allocator.
pub open spec fn earliest(a: Allocators) -> u64 {
    if a.in_flight_a <= a.in_flight_b {
        a.in_flight_a
    } else {
        a.in_flight_b
    }
}

impl Allocators {
    /// The allocator the next command buffer uses: a free one, else the one
    /// whose work finishes first.
    pub open spec fn pick(self) -> usize {
        if self.in_flight_a == 0 {
            0
        } else if self.in_flight_b == 0 {
            1
        } else if self.in_flight_a <= self.in_flight_b {
            0
        } else {
            1
        }
    }

    /// Both allocators are waiting for the device.
    pub open spec fn both_busy(self) -> bool {
        self.in_flight_a != 0 && self.in_flight_b != 0
    }

    /// With every allocator free whose value is at most `value`.
    pub open spec fn reached(self, value: u64) -> Allocators {
        Allocators {
            in_flight_a: if self.in_flight_a <= value {
                0
            } else {
                self.in_flight_a
            },
            in_flight_b: if self.in_flight_b <= value {
                0
            } else {
                self.in_flight_b
            },
            ..self
        }
    }
}

/// Reset operations for the allocators that `value` frees.
pub open spec fn resets(a: Allocators, value: u64) -> Seq<DeviceOp> {
    (if a.in_flight_a != 0 && a.in_flight_a <= value {
        seq![DeviceOp::ResetAllocator { allocator: 0 }]
    } else {
        Seq::empty()
    }) + (if a.in_flight_b != 0 && a.in_flight_b <= value {
        seq![DeviceOp::ResetAllocator { allocator: 1 }]
    } else {
        Seq::empty()
    })
}

/// Letting go of slabs, one by one.
pub open spec fn let_go_ops(slabs: Seq<Slab>) -> Seq<DeviceOp> {
    slabs.map_values(|s: Slab| DeviceOp::DropBuffer { slab: s.id })
}

/// Every slab is in one place: cached and waiting slabs are pairwise distinct and
/// no handle names one of them. All slabs are numbered below `next`.
#[verifier::opaque]
pub open spec fn stored(
    free: Seq<Slab>,
    pending: Seq<Slab>,
    held: Map<u64, Held>,
    next: u64,
) -> bool {
    let idle = free + pending;
    &&& forall|i: int, j: int|
        0 <= i < j < idle.len() ==> (#[trigger] idle[i]).id != (#[trigger] idle[j]).id
    &&& forall|i: int|
        0 <= i < idle.len() ==> (#[trigger] idle[i]).id < next && !held.contains_key(idle[i].id)
    &&& forall|id: u64| #[trigger]
        held.contains_key(id) ==> {
            &&& id < next
            &&& held[id].slab.id == id
            &&& is_bucket(held[id].slab.length as int)
            &&& held[id].owners > 0
        }
}

/// Where the last of the first `n` arenas on slab `id` is, or -1.
pub open spec fn arena_at(arenas: Seq<BumpState>, id: u64, n: int) -> int
    decreases n,
{
    if n <= 0 || n > arenas.len() {
        -1
    } else if arenas[n - 1].buffer.slab.id == id {
        n - 1
    } else {
        arena_at(arenas, id, n - 1)
    }
}

/// The arenas that are not on slab `id`.
pub open spec fn arenas_off(arenas: Seq<BumpState>, id: u64) -> Seq<BumpState>
    decreases arenas.len(),
{
    if arenas.len() == 0 {
        arenas
    } else {
        let rest = arenas_off(arenas.drop_last(), id);
        if arenas.last().buffer.slab.id == id {
            rest
        } else {
            rest.push(arenas.last())
        }
    }
}

/// The arenas are on slabs of their own, and none on slab `id`.
#[verifier::opaque]
pub open spec fn arenas_apart(id: Option<u64>, arenas: Seq<BumpState>) -> bool {
    &&& forall|i: int, j: int|
        0 <= i < j < arenas.len() ==> (#[trigger] arenas[i]).buffer.slab.id != (
        #[trigger] arenas[j]).buffer.slab.id
    &&& forall|i: int| 0 <= i < arenas.len() ==> Some((#[trigger] arenas[i]).buffer.slab.id) != id
}

/// What the arenas have a handle of.
pub open spec fn arena_buffers(arenas: Seq<BumpState>) -> Seq<Storage> {
    Seq::new(arenas.len(), |i: int| arenas[i].buffer)
}

impl RuntimeState {
    /// The cursor of a bump arena is inside its slab, which is held here.
    pub open spec fn arena_wf(self, b: BumpState) -> bool {
        &&& b.cursor <= b.capacity <= isize::MAX
        &&& b.buffer.wf()
        &&& b.buffer.nbytes == b.capacity
        &&& b.buffer.runtime == self.id
        &&& self.held.contains_key(b.buffer.slab.id)
    }

    /// The number of the bump arena's slab.
    pub open spec fn bump_slab(self) -> Option<u64> {
        match self.bump {
            Some(b) => Some(b.buffer.slab.id),
            None => None,
        }
    }

    /// What every operation keeps: the pool within its cap, every retired slab
    /// of a rounded length, no slab both idle and held, the bump arena and those
    /// it replaced in order, and, between batches, an empty constant arena and
    /// nothing in flight.
    pub open spec fn wf(self) -> bool {
        &&& self.pool.wf()
        &&& stored(self.pool.free, self.pending, self.held, self.serials.slab)
        &&& forall|i: int| 0 <= i < self.pending.len() ==> is_bucket(#[trigger] self.pending[i].length as int)
        &&& match self.bump {
            None => self.replaced.len() == 0,
            Some(b) => self.arena_wf(b),
        }
        &&& forall|i: int|
            0 <= i < self.replaced.len() ==> self.arena_wf(#[trigger] self.replaced[i])
        &&& arenas_apart(self.bump_slab(), self.replaced)
        &&& match self.batch {
            None => {
                &&& self.cursor == 0
                &&& self.allocators.in_flight_a == 0
                &&& self.allocators.in_flight_b == 0
            },
            Some(b) => b.alloc_idx < 2,
        }
    }

    /// With more operations.
    pub open spec fn with_ops(self, ops: Seq<DeviceOp>) -> RuntimeState {
        RuntimeState { ops: self.ops + ops, ..self }
    }

    /// With one more operation.
    pub open spec fn with_op(self, op: DeviceOp) -> RuntimeState {
        RuntimeState { ops: self.ops.push(op), ..self }
    }

    // ------------------------------------------------------------- access ---

    /// What refuses exclusive access.
    pub open spec fn access_problem(self) -> Option<Seq<char>> {
        first(unless(!self.failed, poisoned_message()), unless(!self.busy, busy_message()))
    }

    // ---------------------------------------------------------- residency ---

    /// After a slab entered the residency set.
    pub open spec fn registered(self, slab: u64) -> RuntimeState {
        RuntimeState {
            residency: Residency { count: succ_sat(self.residency.count), dirty: true },
            ..self.with_op(DeviceOp::AddResidency { slab })
        }
    }

    /// After a slab left the residency set.
    pub open spec fn unregistered(self, slab: u64) -> RuntimeState {
        RuntimeState {
            residency: Residency {
                count: if self.residency.count == 0 {
                    0
                } else {
                    (self.residency.count - 1) as usize
                },
                dirty: true,
            },
            ..self.with_op(DeviceOp::RemoveResidency { slab })
        }
    }

    /// A command buffer is open.
    pub open spec fn cb_open(self) -> bool {
        self.batch is Some && self.batch->0.cb_open
    }

    /// After pending residency edits were committed.
    pub open spec fn flushed(self) -> RuntimeState {
        if !self.residency.dirty {
            self
        } else {
            let s = RuntimeState {
                residency: Residency { dirty: false, ..self.residency },
                trace: self.trace.after(TraceEvent::ResidencyFlush),
                ..self.with_op(DeviceOp::CommitResidency)
            };
            if s.cb_open() {
                s.with_op(DeviceOp::UseResidency)
            } else {
                s
            }
        }
    }

    // ------------------------------------------------------------ storage ---

    /// With a slab in use by its first handle.
    pub open spec fn with_handle(self, slab: Slab, kind: BufferKind) -> RuntimeState {
        RuntimeState { held: self.held.insert(slab.id, Held { slab, kind, owners: 1 }), ..self }
    }

    /// After an allocation request.
    #[verifier::opaque]
    pub open spec fn allocated(self, nbytes: usize, kind: BufferKind) -> (
        RuntimeState,
        Result<Storage, Seq<char>>,
    ) {
        let s = if kind == BufferKind::Cold {
            RuntimeState { trace: self.trace.after(TraceEvent::ColdAlloc), ..self }
        } else {
            self
        };
        match PoolState::request_problem(nbytes as int, self.info.max_buffer_length as int) {
            Some(m) => (s, Err(m)),
            None => {
                let (pool, grant) = s.pool.granted(nbytes as int);
                match grant {
                    Grant::Reuse(slab) => (
                        RuntimeState { pool, ..s }.registered(slab.id).with_handle(slab, kind),
                        Ok(Storage { slab, nbytes, kind, runtime: self.id }),
                    ),
                    Grant::Create(key) => if self.serials.slab == u64::MAX
                        || self.serials.address + key > u64::MAX {
                        (s, Err("newBuffer("@ + decimal(key as nat) + ") failed"@))
                    } else {
                        let slab = Slab {
                            id: self.serials.slab,
                            length: key,
                            address: self.serials.address,
                        };
                        (
                            RuntimeState {
                                serials: Serials {
                                    slab: (self.serials.slab + 1) as u64,
                                    address: (self.serials.address + key) as u64,
                                    ..self.serials
                                },
                                ..s.with_op(DeviceOp::CreateBuffer { made: slab })
                            }.registered(slab.id).with_handle(slab, kind),
                            Ok(Storage { slab, nbytes, kind, runtime: self.id }),
                        )
                    },
                }
            },
        }
    }

    /// After a zeroed tensor was asked for.
    #[verifier::opaque]
    pub open spec fn tensor_allocated(self, shape: Seq<usize>, dtype: DType, kind: BufferKind) -> (
        RuntimeState,
        Result<Storage, Seq<char>>,
    ) {
        match shape_problem(shape, dtype.bytes()) {
            Some(m) => (self, Err(m)),
            None => {
                let nbytes = (product(ints(shape)) * dtype.bytes()) as usize;
                let (s, r) = self.allocated(nbytes, kind);
                match r {
                    Err(m) => (s, Err(m)),
                    Ok(buf) => (
                        s.with_op(DeviceOp::Zero { slab: buf.slab.id, offset: 0, len: nbytes }),
                        Ok(buf),
                    ),
                }
            },
        }
    }

    /// This runtime's handles name the storage.
    pub open spec fn holds(self, b: Storage) -> bool {
        b.runtime == self.id && self.held.contains_key(b.slab.id)
    }

    /// The slab is the bump arena's.
    pub open spec fn is_arena(self, slab: u64) -> bool {
        self.bump is Some && self.bump->0.buffer.slab.id == slab
    }

    /// The slab is the bump arena's, or one's that it replaced.
    pub open spec fn backs_arena(self, slab: u64) -> bool {
        self.is_arena(slab) || arena_at(self.replaced, slab, self.replaced.len() as int) >= 0
    }

    /// With one more handle of the storage. Storage that is not held here is left
    /// alone.
    #[verifier::opaque]
    pub open spec fn shared(self, b: Storage) -> RuntimeState {
        if self.holds(b) {
            let h = self.held[b.slab.id];
            RuntimeState {
                held: self.held.insert(b.slab.id, Held { owners: succ_event(h.owners), ..h }),
                ..self
            }
        } else {
            self
        }
    }

    /// After a handle of the storage was given up. With the last one the slab is
    /// retired: hot storage stays resident for good, the rest waits for the
    /// device. Storage that is not held here is left alone, and so is an arena's
    /// own handle.
    #[verifier::opaque]
    pub open spec fn retired(self, b: Storage) -> RuntimeState {
        if !self.holds(b) {
            self
        } else {
            let h = self.held[b.slab.id];
            if h.owners == u64::MAX || (h.owners <= 1 && self.backs_arena(b.slab.id)) {
                self
            } else if h.owners > 1 {
                RuntimeState {
                    held: self.held.insert(
                        b.slab.id,
                        Held { owners: (h.owners - 1) as u64, ..h },
                    ),
                    ..self
                }
            } else {
                let s = RuntimeState { held: self.held.remove(b.slab.id), ..self };
                if h.kind == BufferKind::Hot {
                    s
                } else {
                    RuntimeState { pending: self.pending.push(h.slab), ..s }
                }
            }
        }
    }

    /// After one handle was given up of each of the first `n`.
    pub open spec fn retired_to(self, all: Seq<Storage>, n: int) -> RuntimeState
        decreases n,
    {
        if n <= 0 {
            self
        } else {
            self.retired_to(all, n - 1).retired(all[n - 1])
        }
    }

    /// After one handle was given up of each.
    pub open spec fn let_go(self, all: Seq<Storage>) -> RuntimeState {
        self.retired_to(all, all.len() as int)
    }

    /// With one more handle of each of the first `n` that are held here, and the
    /// list of those.
    pub open spec fn taken(self, all: Seq<Storage>, n: int) -> (RuntimeState, Seq<Storage>)
        decreases n,
    {
        if n <= 0 {
            (self, Seq::empty())
        } else {
            let (s, kept) = self.taken(all, n - 1);
            if s.holds(all[n - 1]) {
                (s.shared(all[n - 1]), kept.push(all[n - 1]))
            } else {
                (s, kept)
            }
        }
    }

    /// With an empty recording in progress; one that was in progress lets its
    /// buffers go.
    pub open spec fn capture_begun(self) -> RuntimeState {
        let s = RuntimeState { capture: None, ..self };
        RuntimeState {
            capture: Some(crate::capture::empty_capture()),
            ..match self.capture {
                Some(c) => s.let_go(c.kept),
                None => s,
            }
        }
    }

    /// After a recording came back from a scope: it has a handle of every buffer
    /// that was bound while it ran.
    pub open spec fn with_recording(self, capture: Option<CaptureView>) -> RuntimeState {
        match capture {
            None => RuntimeState { capture: None, ..self },
            Some(c) => {
                let (s, kept) = self.taken(c.fresh, c.fresh.len() as int);
                RuntimeState {
                    capture: Some(CaptureView { fresh: Seq::empty(), kept: c.kept + kept, ..c }),
                    ..s
                }
            },
        }
    }

    /// After the first `n` waiting slabs left the residency set and went back to
    /// the pool, or to the device where the pool does not keep them.
    pub open spec fn drained_to(self, n: int) -> RuntimeState
        decreases n,
    {
        if n <= 0 {
            self
        } else {
            let slab = self.pending[n - 1];
            let s = self.drained_to(n - 1).unregistered(slab.id);
            let t = RuntimeState { pool: s.pool.recycled(slab), ..s };
            if s.pool.keeps(slab) {
                t
            } else {
                t.with_op(DeviceOp::DropBuffer { slab: slab.id })
            }
        }
    }

    /// After all waiting slabs went back to the pool.
    #[verifier::opaque]
    pub open spec fn drained(self) -> RuntimeState {
        if self.pending.len() == 0 {
            self
        } else {
            RuntimeState {
                pending: Seq::empty(),
                ..self.drained_to(self.pending.len() as int)
            }.flushed()
        }
    }

    /// The slab is in the residency set on behalf of a handle or a waiting slab.
    pub open spec fn resident(self, id: u64) -> bool {
        self.held.contains_key(id) || numbered(self.pending, id, self.pending.len() as int) >= 0
    }

    /// One resident allocation less.
    pub open spec fn less_resident(self) -> Residency {
        Residency {
            count: if self.residency.count == 0 {
                0
            } else {
                (self.residency.count - 1) as usize
            },
            ..self.residency
        }
    }

    /// After the device refused to make what `op` asks for: the grant is undone.
    /// A refused slab is in no place any more, so no request is ever granted it;
    /// handles of it are of no effect. The bump arena on it gives way to the one
    /// that it replaced. A refused pipeline is asked for anew.
    pub open spec fn undone(self, op: DeviceOp) -> RuntimeState {
        match op {
            DeviceOp::CreateBuffer { made } => RuntimeState {
                held: self.held.remove(made.id),
                pending: forgotten(self.pending, made.id),
                pool: PoolState { free: forgotten(self.pool.free, made.id), ..self.pool },
                bump: self.arenas_without(made.id).0,
                replaced: self.arenas_without(made.id).1,
                residency: if self.resident(made.id) {
                    self.less_resident()
                } else {
                    self.residency
                },
                ..self
            },
            DeviceOp::BuildPipeline { kernel, indirect } => RuntimeState {
                built: unbuilt(self.built, kernel, indirect),
                ..self
            },
            DeviceOp::CreateIcb { .. } => RuntimeState {
                residency: self.less_resident(),
                ..self
            },
            _ => self,
        }
    }

    /// The bump arena, and those it replaced, without any on slab `id`.
    pub open spec fn arenas_without(self, id: u64) -> (Option<BumpState>, Seq<BumpState>) {
        let rest = arenas_off(self.replaced, id);
        if !self.is_arena(id) {
            (self.bump, rest)
        } else if rest.len() == 0 {
            (None, rest)
        } else {
            (Some(rest.last()), rest.drop_last())
        }
    }

    /// How many of the replaced arenas came before the one on slab `id`: all of
    /// them where it is the arena's now, none where it is no arena's.
    pub open spec fn arenas_before(self, id: u64) -> int {
        if self.is_arena(id) {
            self.replaced.len() as int
        } else {
            most(arena_at(self.replaced, id, self.replaced.len() as int), 0)
        }
    }

    /// After the device made what `op` asks for. Where a bump arena is on it,
    /// those before that one give up their handles.
    pub open spec fn confirmed(self, op: DeviceOp) -> RuntimeState {
        match op {
            DeviceOp::CreateBuffer { made } => {
                let n = self.arenas_before(made.id);
                RuntimeState { replaced: self.replaced.skip(n), ..self }.let_go(
                    arena_buffers(self.replaced.take(n)),
                )
            },
            _ => self,
        }
    }

    // --------------------------------------------------- command buffers ---

    /// With a command buffer open.
    #[verifier::opaque]
    pub open spec fn begun(self) -> RuntimeState {
        if self.cb_open() {
            self
        } else {
            let a = self.allocators;
            let at = a.pick();
            let s = if a.both_busy() {
                RuntimeState {
                    allocators: a.reached(earliest(a)),
                    ..self.with_op(DeviceOp::WaitAllocator { value: earliest(a) }).with_ops(
                        resets(a, earliest(a)),
                    )
                }
            } else {
                self
            };
            let t = s.with_op(DeviceOp::BeginCommands { allocator: at }).with_op(
                DeviceOp::UseResidency,
            );
            let u = if self.info.counter_heap {
                t.with_op(DeviceOp::Timestamp { index: 0 })
            } else {
                t
            };
            RuntimeState {
                allocators: Allocators { active: at, ..s.allocators },
                batch: Some(
                    ActiveBatch {
                        dispatches: match self.batch {
                            Some(b) => b.dispatches,
                            None => 0,
                        },
                        since_commit: match self.batch {
                            Some(b) => b.since_commit,
                            None => 0,
                        },
                        cb_open: true,
                        stamped_t0: self.info.counter_heap,
                        encoder: false,
                        alloc_idx: at,
                    },
                ),
                ..u
            }
        }
    }

    /// With the packed compute encoder open.
    pub open spec fn encoder_opened(self) -> RuntimeState {
        let s = self.begun();
        if s.batch->0.encoder {
            s
        } else {
            RuntimeState {
                batch: Some(ActiveBatch { encoder: true, ..s.batch->0 }),
                ..s.with_op(DeviceOp::OpenEncoder)
            }
        }
    }

    /// The greatest value an allocator waits for.
    pub open spec fn latest(self) -> u64 {
        if self.allocators.in_flight_a >= self.allocators.in_flight_b {
            self.allocators.in_flight_a
        } else {
            self.allocators.in_flight_b
        }
    }

    /// After waiting for every submitted command buffer.
    pub open spec fn caught_up(self) -> RuntimeState {
        let v = self.latest();
        if v == 0 {
            self
        } else {
            RuntimeState {
                allocators: self.allocators.reached(v),
                ..self.with_op(DeviceOp::Wait { value: v }).with_ops(resets(self.allocators, v))
            }
        }
    }

    /// After a commit, waiting for the device or not.
    #[verifier::opaque]
    pub open spec fn committed(self, wait: bool) -> RuntimeState {
        match self.batch {
            None => if wait {
                self.drained()
            } else {
                self
            },
            Some(b) => if !b.cb_open {
                if wait {
                    RuntimeState { batch: None, cursor: 0, ..self.caught_up() }.drained()
                } else {
                    self
                }
            } else {
                let stamp = wait && b.stamped_t0;
                let w = self.submitted(b, stamp);
                if wait {
                    w.settled(stamp).drained()
                } else {
                    w
                }
            },
        }
    }

    /// After open batch `b` was ended and handed to the device.
    pub open spec fn submitted(self, b: ActiveBatch, stamp: bool) -> RuntimeState {
        let next = succ_event(self.allocators.event);
        let s = RuntimeState { trace: self.trace.after(TraceEvent::Commit), ..self };
        let t = if b.encoder {
            s.with_op(DeviceOp::EndEncoding)
        } else {
            s
        };
        let u = if stamp {
            t.with_op(DeviceOp::Timestamp { index: 1 })
        } else {
            t
        };
        RuntimeState {
            batch: Some(ActiveBatch { cb_open: false, since_commit: 0, encoder: false, ..b }),
            allocators: Allocators {
                in_flight_a: if b.alloc_idx == 0 {
                    next
                } else {
                    self.allocators.in_flight_a
                },
                in_flight_b: if b.alloc_idx == 0 {
                    self.allocators.in_flight_b
                } else {
                    next
                },
                active: if b.alloc_idx == 0 {
                    1
                } else {
                    0
                },
                event: next,
            },
            ..u.with_op(DeviceOp::EndCommands).with_op(DeviceOp::Submit).with_op(
                DeviceOp::Signal { value: next },
            )
        }
    }

    /// After waiting for the value signalled last: every allocator is free, the
    /// constant arena is empty and no batch is left.
    pub open spec fn settled(self, stamp: bool) -> RuntimeState {
        let x = self.with_op(DeviceOp::Wait { value: self.allocators.event }).with_ops(
            resets(self.allocators, u64::MAX),
        );
        let y = if stamp {
            x.with_op(DeviceOp::ResolveTimestamps)
        } else {
            x
        };
        RuntimeState {
            allocators: self.allocators.reached(u64::MAX),
            cursor: 0,
            batch: None,
            ..y
        }
    }

    // ------------------------------------------------------------- scopes ---

    /// Whether a scope skips the barrier after each dispatch: as forced, else as
    /// the hazard flag says.
    pub open spec fn scope_skips(self, skip: Option<bool>) -> bool {
        match skip {
            Some(b) => b,
            None => self.ab.hazard_value(),
        }
    }

    /// State while a binder scope is open, with the binder it got.
    #[verifier::opaque]
    pub open spec fn scoped(self, skip: Option<bool>) -> (RuntimeState, BinderState) {
        let s = RuntimeState { busy: true, ..self }.flushed().encoder_opened();
        (
            RuntimeState {
                ops: Seq::empty(),
                blob: Seq::empty(),
                capture: None,
                ab: match skip {
                    Some(_) => s.ab,
                    None => s.ab.with_hazard_read(),
                },
                ..s
            },
            fresh_binder(
                s.id,
                s.info.arena_address,
                s.cursor,
                s.scope_skips(skip),
                s.ops,
                s.blob,
                s.trace,
                s.capture,
            ),
        )
    }

    /// State and outcome once a scope closed with binder `b`, whose callback
    /// reported `outcome`.
    #[verifier::opaque]
    pub open spec fn unscoped(self, b: BinderState, outcome: Option<Seq<char>>) -> (
        RuntimeState,
        Option<Seq<char>>,
    ) {
        let s = RuntimeState {
            busy: false,
            ops: b.ops,
            blob: b.blob,
            cursor: b.cursor,
            trace: b.trace,
            ..self
        }.with_recording(b.capture);
        match first(outcome, b.error) {
            Some(m) => (
                RuntimeState {
                    failed: true,
                    dispatch_count: if self.async_encode {
                        self.dispatch_count
                    } else {
                        succ_sat(self.dispatch_count)
                    },
                    ..s
                },
                Some(m),
            ),
            None => {
                let old_batch = self.batch->0;
                let batch = ActiveBatch {
                    dispatches: succ_sat(old_batch.dispatches),
                    since_commit: succ_sat(old_batch.since_commit),
                    ..old_batch
                };
                let t = RuntimeState { batch: Some(batch), ..s };
                let full = (self.mid_commit > 0 && batch.since_commit >= self.mid_commit)
                    || batch.dispatches >= BATCH_DISPATCH_CAP;
                let u = if full {
                    t.committed(false)
                } else {
                    t
                };
                let v = if self.async_encode {
                    u
                } else {
                    u.committed(true)
                };
                (RuntimeState { dispatch_count: succ_sat(v.dispatch_count), ..v }, None)
            },
        }
    }

    /// State and outcome of a scope whose callback is `f` and reports nothing.
    pub open spec fn encoded(self, skip: Option<bool>, f: spec_fn(BinderState) -> BinderState) -> (
        RuntimeState,
        Option<Seq<char>>,
    ) {
        if self.icb.encode_nop {
            (self, None)
        } else {
            match self.access_problem() {
                Some(m) => (self, Some(m)),
                None => {
                    let (mid, b) = self.scoped(skip);
                    mid.unscoped(f(b), None)
                },
            }
        }
    }

    /// State and outcome of one launch: pipeline, binds, threadgroup memory and
    /// one dispatch, in a scope of their own.
    #[verifier::opaque]
    pub open spec fn launched(
        self,
        p: Pipeline,
        binds: Seq<Bind>,
        tg_mem: Option<(usize, usize)>,
        groups: MtlSize,
        threads: MtlSize,
    ) -> (RuntimeState, Option<Seq<char>>) {
        self.encoded(None, launch_fn(p, binds, tg_mem, groups, threads))
    }

    // ---------------------------------------------------------- pipelines ---

    /// After a pipeline was asked for by name. While encoding is a no-op any
    /// built pipeline stands in.
    #[verifier::opaque]
    pub open spec fn piped(self, name: Seq<char>) -> (RuntimeState, Result<Pipeline, Seq<char>>) {
        if self.icb.encode_nop {
            (
                self,
                if self.built.len() > 0 {
                    Ok(self.built[0])
                } else {
                    Err(
                        "pipeline_nop_standin: empty cache (binder-nop before any live encode?)"@,
                    )
                },
            )
        } else {
            let icb = self.icb.pipelines_value(self.ab.env);
            let s = RuntimeState { icb: IcbFlags { pipelines: Some(icb), ..self.icb }, ..self };
            let at = kernel_from(self.kernels, name, None, 0);
            if at < 0 || at >= self.kernels.len() {
                (s, Err(missing_kernel(name)))
            } else {
                let p = pipeline_of(self.kernels, at, icb);
                if self.built.contains(p) {
                    (s, Ok(p))
                } else if icb && !self.kernels[at].icb_capable {
                    (s, Err(not_icb_capable(name)))
                } else {
                    (
                        RuntimeState {
                            built: self.built.push(p),
                            ..s.with_op(DeviceOp::BuildPipeline { kernel: p.kernel, indirect: icb })
                        },
                        Ok(p),
                    )
                }
            }
        }
    }

    // ------------------------------------------- indirect command buffers ---

    /// After the host wrote bytes to the start of a slab.
    pub open spec fn host_written(self, slab: u64, bytes: Seq<u8>) -> RuntimeState {
        RuntimeState {
            blob: self.blob + bytes,
            ..self.with_op(
                DeviceOp::HostWrite {
                    slab,
                    from: self.blob.len() as usize,
                    len: bytes.len() as usize,
                },
            )
        }
    }

    /// After an indirect command buffer was asked for; it becomes resident.
    pub open spec fn icb_created(self, freeze: bool, capacity: usize) -> (
        RuntimeState,
        Option<u64>,
    ) {
        let icb = self.serials.icb;
        if icb == u64::MAX {
            (self, None)
        } else {
            (
                RuntimeState {
                    serials: Serials { icb: (icb + 1) as u64, ..self.serials },
                    residency: Residency { count: succ_sat(self.residency.count), dirty: true },
                    ..self.with_op(DeviceOp::CreateIcb { icb, freeze, capacity }).with_op(
                        DeviceOp::AddIcbResidency { icb },
                    )
                },
                Some(icb),
            )
        }
    }

    /// After an argument table was asked for.
    pub open spec fn table_created(self) -> (RuntimeState, Option<u64>) {
        let table = self.serials.table;
        if table == u64::MAX {
            (self, None)
        } else {
            (
                RuntimeState {
                    serials: Serials { table: (table + 1) as u64, ..self.serials },
                    ..self.with_op(DeviceOp::CreateTable { table })
                },
                Some(table),
            )
        }
    }

    /// Catalog entry of an indirect build: overlays come first.
    pub open spec fn icb_kernel(self, name: Seq<char>) -> int {
        let overlay = kernel_from(self.kernels, name, Some(true), 0);
        if overlay >= 0 {
            overlay
        } else {
            kernel_from(self.kernels, name, Some(false), 0)
        }
    }

    /// After an indirect build of a kernel was asked for; it is not cached.
    pub open spec fn icb_piped(self, name: Seq<char>) -> (
        RuntimeState,
        Result<Pipeline, Seq<char>>,
    ) {
        let at = self.icb_kernel(name);
        if at < 0 || at >= self.kernels.len() {
            (self, Err("ICB MTL4 pipeline '"@ + name + "': function not found"@))
        } else if !self.kernels[at].icb_capable {
            (self, Err(not_icb_capable(name)))
        } else {
            (
                self.with_op(DeviceOp::BuildPipeline { kernel: at as usize, indirect: true }),
                Ok(pipeline_of(self.kernels, at, true)),
            )
        }
    }

    // --------------------------------------------------------------- bump ---

    /// Rounded capacity of a bump arena.
    pub open spec fn bump_capacity(capacity: usize) -> int {
        most(pow2_ceil(capacity as int), 256)
    }

    /// Some view of the arena's slab is held.
    pub open spec fn bump_shared(self) -> bool {
        self.bump is Some && self.held[self.bump->0.buffer.slab.id].owners > 1
    }

    /// The arenas that a new one replaces.
    pub open spec fn outgoing(self) -> Seq<BumpState> {
        match self.bump {
            Some(b) => self.replaced.push(b),
            None => self.replaced,
        }
    }

    /// With another slab as the bump arena. One that the device has still to make
    /// can be refused, so the arenas before it are kept as they are; else their
    /// handles are given up.
    pub open spec fn rearmed(self, buffer: Storage, capacity: usize, unmade: bool) -> RuntimeState {
        let bump = Some(BumpState { buffer, cursor: 0, capacity });
        if unmade {
            RuntimeState { bump, replaced: self.outgoing(), ..self }
        } else {
            RuntimeState { bump, replaced: Seq::empty(), ..self }.let_go(
                arena_buffers(self.outgoing()),
            )
        }
    }

    /// With a slab of `capacity` bytes, which `t` was granted after `self`, as the
    /// bump arena of `t`.
    pub open spec fn regrown(
        self,
        t: RuntimeState,
        buffer: Storage,
        capacity: usize,
    ) -> RuntimeState {
        t.rearmed(buffer, capacity, t.serials.slab != self.serials.slab)
    }

    /// After a bump arena of at least `capacity` bytes was asked for. A slab that
    /// is replaced stays until the device has made the new one, and the last view
    /// of it is let go.
    pub open spec fn bump_ensured(self, capacity: usize) -> (RuntimeState, Option<Seq<char>>) {
        let cap = Self::bump_capacity(capacity);
        if pow2_ceil(capacity as int) > isize::MAX {
            (self, Some("bump capacity overflow"@))
        } else if self.bump is Some && self.bump->0.capacity >= cap {
            (self, None)
        } else {
            let (s, r) = self.allocated(cap as usize, BufferKind::Bump);
            match r {
                Err(m) => (s, Some(m)),
                Ok(buffer) => (self.regrown(s, buffer, cap as usize), None),
            }
        }
    }

    /// Where the next bump allocation starts.
    pub open spec fn bump_start(self) -> int {
        crate::dispatch::align16(self.bump->0.cursor as int)
    }

    /// What refuses a bump allocation of `shape`.
    pub open spec fn bump_problem(self, shape: Seq<usize>) -> Option<Seq<char>> {
        let nbytes = product(ints(shape)) * 4;
        first(
            self.access_problem(),
            first(
                shape_problem(shape, 4),
                first(
                    unless(
                        self.bump is Some,
                        "bump arena not initialized; call ensure_bump first"@,
                    ),
                    unless(
                        self.bump_start() + nbytes <= self.bump->0.capacity,
                        "bump arena exhausted: need "@ + decimal(nbytes as nat)
                            + " more bytes (cursor="@ + decimal(self.bump_start() as nat)
                            + ", cap="@ + decimal(self.bump->0.capacity as nat) + ")"@,
                    ),
                ),
            ),
        )
    }

    /// After a bump allocation of `nbytes`, which has a handle of the slab.
    pub open spec fn bumped(self, nbytes: usize) -> RuntimeState {
        let b = self.bump->0;
        RuntimeState {
            bump: Some(BumpState { cursor: (self.bump_start() + nbytes) as usize, ..b }),
            ..self.with_op(
                DeviceOp::Zero {
                    slab: b.buffer.slab.id,
                    offset: self.bump_start() as usize,
                    len: nbytes,
                },
            )
        }.shared(b.buffer)
    }

    /// After the bump arena was reset: the slab is reused, or replaced where a
    /// view of it is still held.
    pub open spec fn bump_cleared(self) -> RuntimeState {
        let s = self.committed(true);
        match s.bump {
            None => s,
            Some(b) => if !s.bump_shared() {
                RuntimeState { bump: Some(BumpState { cursor: 0, ..b }), ..s }
            } else {
                let (t, r) = s.allocated(b.capacity, BufferKind::Bump);
                s.regrown(t, r->Ok_0, b.capacity)
            },
        }
    }

    /// Resetting the bump arena can be carried out.
    pub open spec fn can_clear_bump(self) -> bool {
        &&& self.access_problem() is None
        &&& self.bump_shared() ==> self.committed(true).allocated(
            self.bump->0.capacity,
            BufferKind::Bump,
        ).1 is Ok
    }
}

/// What one launch does to its binder.
pub open spec fn launch_fn(
    p: Pipeline,
    binds: Seq<Bind>,
    tg_mem: Option<(usize, usize)>,
    groups: MtlSize,
    threads: MtlSize,
) -> spec_fn(BinderState) -> BinderState {
    |b: BinderState|
        {
            let s = b.piped(p).bound_all(binds);
            let t = match tg_mem {
                Some((index, length)) => s.with_tg_mem(index, length),
                None => s,
            };
            t.dispatched(groups, threads)
        }
}

} // verus!
