//! The runtime: encode state machine, buffer pool, pipeline catalog, bump
//! arena and constant arena. Every method is the function on
//! [`RuntimeState`] that its contract names; the device operations it asks for
//! collect in order and are handed over by [`GpuRuntime::take_ops`].

use std::collections::HashMap;

use vstd::prelude::*;

use crate::ab_flags::{hazard_barriers, AbFlags, Env};
use crate::capture::{copy_bytes, CaptureView, DecodeIcbCapture, TapeHold};
use crate::device::{
    DeviceInfo, DeviceOp, Kernel, MtlSize, Pipeline, METAL4_CONST_ARENA_BYTES,
};
use crate::dispatch::{capture_of, Bind, Binder, BinderState};
use crate::icb_flags::{
    decode_icb_enabled, icb_coarse_ranges_enabled, icb_freeze_binds_enabled, icb_pipelines_enabled,
    icb_range_batch_enabled, IcbFlags,
};
use crate::infer_trace::{on_cold_alloc, on_commit, on_residency_flush, InferTrace};
use crate::pool::{forget, is_bucket, numbered, shed, BufferPool, Grant, PoolState};
use crate::runtime::storage::{
    law_granted_slabs_have_one_handle, lemma_arena_at, lemma_arenas_off, lemma_capped,
    lemma_cleared, lemma_created, lemma_drains, lemma_fewer, lemma_handed, lemma_last, lemma_reused,
    lemma_struck,
};
use crate::sizes::next_pow2_within;
use crate::state::{
    arena_at, arena_buffers, arenas_apart, arenas_off, kernel_from, let_go_ops, stored, succ_sat,
    unbuilt, ActiveBatch, Allocators, BumpState, Held, Residency, RuntimeState, Serials,
    BATCH_DISPATCH_CAP, DEFAULT_POOL_CACHE_BYTES,
};
use crate::tensor::{checked_nbytes, copy_shape, DType, Slab, Storage};
use crate::text::{owned, reports, same_text, Msg};

pub use crate::device::mtl_size;
pub use crate::state::{DeviceMemoryInfo, PrecisionMode, Settings};
pub use crate::tensor::{BufferKind, GpuBuffer, Tensor};

pub mod laws;
pub mod open;
pub mod recording;
pub mod storage;

verus! {

/// The GPU runtime.
pub struct GpuRuntime {
    id: u64,
    info: DeviceInfo,
    kernels: Vec<Kernel>,
    overlays: usize,
    built: Vec<Pipeline>,
    busy: bool,
    failed: bool,
    pool: BufferPool,
    bump: Option<BumpState>,
    replaced: Vec<BumpState>,
    async_encode: bool,
    batch: Option<ActiveBatch>,
    allocators: Allocators,
    cursor: usize,
    ops: Vec<DeviceOp>,
    blob: Vec<u8>,
    dispatch_count: usize,
    settings: Settings,
    residency: Residency,
    pending: Vec<Slab>,
    held: HashMap<u64, Held>,
    memory: DeviceMemoryInfo,
    stamps: Option<(u64, u64)>,
    serials: Serials,
    mid_commit: usize,
    ab: AbFlags,
    icb: IcbFlags,
    trace: InferTrace,
    capture: Option<DecodeIcbCapture>,
}

impl View for GpuRuntime {
    type V = RuntimeState;

    closed spec fn view(&self) -> RuntimeState {
        RuntimeState {
            id: self.id,
            info: self.info,
            kernels: self.kernels@,
            overlays: self.overlays,
            built: self.built@,
            busy: self.busy,
            failed: self.failed,
            pool: self.pool@,
            bump: self.bump,
            replaced: self.replaced@,
            async_encode: self.async_encode,
            batch: self.batch,
            allocators: self.allocators,
            cursor: self.cursor as int,
            ops: self.ops@,
            blob: self.blob@,
            dispatch_count: self.dispatch_count,
            settings: self.settings,
            residency: self.residency,
            pending: self.pending@,
            held: self.held@,
            memory: self.memory,
            stamps: self.stamps,
            serials: self.serials,
            mid_commit: self.mid_commit,
            ab: self.ab,
            icb: self.icb,
            trace: self.trace,
            capture: capture_of(self.capture),
        }
    }
}

/// `r` is the outcome `problem`: success without one, its text otherwise.
pub open spec fn outcome<T>(r: Result<T, String>, expected: Result<T, Seq<char>>) -> bool {
    match expected {
        Ok(v) => r == Ok::<T, String>(v),
        Err(m) => r is Err && r->Err_0@ == m,
    }
}

/// `r` is the handle of the storage that `expected` grants, or its refusal.
pub open spec fn handed(
    r: Result<GpuBuffer, String>,
    expected: Result<Storage, Seq<char>>,
) -> bool {
    match expected {
        Ok(b) => r is Ok && r->Ok_0@ == b,
        Err(m) => r is Err && r->Err_0@ == m,
    }
}

fn incr(n: usize) -> (r: usize)
    ensures
        r == succ_sat(n),
{
    if n == usize::MAX {
        n
    } else {
        n + 1
    }
}

impl GpuRuntime {
    /// The runtime's invariant.
    pub closed spec fn inv(&self) -> bool {
        &&& self@.wf()
        &&& self.pool.inv()
    }

    /// The invariant covers the state's well-formedness.
    pub proof fn lemma_inv(&self)
        requires
            self.inv(),
        ensures
            self@.wf(),
    {
    }

    fn push_op(&mut self, op: DeviceOp)
        ensures
            final(self)@ == old(self)@.with_op(op),
            final(self).pool == old(self).pool,
    {
        self.ops.push(op);
    }

    // ---------------------------------------------------------- residency ---

    /// Puts a slab in the residency set; committed with the next flush.
    pub fn register_residency(&mut self, slab: u64)
        requires
            old(self).inv(),
        ensures
            final(self).inv(),
            final(self)@ == old(self)@.registered(slab),
    {
        self.ops.push(DeviceOp::AddResidency { slab });
        self.residency = Residency { count: incr(self.residency.count), dirty: true };
    }

    /// Takes a slab out of the residency set with the next flush.
    pub fn unregister_residency(&mut self, slab: u64)
        requires
            old(self).inv(),
        ensures
            final(self).inv(),
            final(self)@ == old(self)@.unregistered(slab),
    {
        self.ops.push(DeviceOp::RemoveResidency { slab });
        let n: usize = self.residency.count;
        self.residency = Residency {
            count: if n == 0 {
                0
            } else {
                n - 1
            },
            dirty: true,
        };
    }

    /// Commits pending residency edits.
    pub fn flush_residency(&mut self)
        requires
            old(self).inv(),
        ensures
            final(self).inv(),
            final(self)@ == old(self)@.flushed(),
    {
        if !self.residency.dirty {
            return;
        }
        on_residency_flush(&mut self.trace);
        self.ops.push(DeviceOp::CommitResidency);
        self.residency.dirty = false;
        let open = match self.batch {
            Some(b) => b.cb_open,
            None => false,
        };
        if open {
            self.ops.push(DeviceOp::UseResidency);
        }
    }

    // ------------------------------------------------------------ storage ---

    /// Cold allocation.
    pub fn alloc_buffer(&mut self, nbytes: usize) -> (r: Result<GpuBuffer, String>)
        requires
            old(self).inv(),
        ensures
            final(self).inv(),
            final(self)@ == old(self)@.allocated(nbytes, BufferKind::Cold).0,
            handed(r, old(self)@.allocated(nbytes, BufferKind::Cold).1),
            r matches Ok(b) ==> b@.wf() && b@.nbytes == nbytes && b@.kind == BufferKind::Cold
                && b@.runtime == old(self)@.id,
    {
        self.alloc_buffer_kind(nbytes, BufferKind::Cold)
    }

    /// Hot allocation.
    pub fn alloc_buffer_hot(&mut self, nbytes: usize) -> (r: Result<GpuBuffer, String>)
        requires
            old(self).inv(),
        ensures
            final(self).inv(),
            final(self)@ == old(self)@.allocated(nbytes, BufferKind::Hot).0,
            handed(r, old(self)@.allocated(nbytes, BufferKind::Hot).1),
            r matches Ok(b) ==> b@.wf() && b@.nbytes == nbytes && b@.kind == BufferKind::Hot
                && b@.runtime == old(self)@.id,
    {
        self.alloc_buffer_kind(nbytes, BufferKind::Hot)
    }

    /// Allocates `nbytes`: a cached slab of the rounded size, or a new one.
    pub fn alloc_buffer_kind(&mut self, nbytes: usize, kind: BufferKind) -> (r: Result<
        GpuBuffer,
        String,
    >)
        requires
            old(self).inv(),
        ensures
            final(self).inv(),
            final(self)@ == old(self)@.allocated(nbytes, kind).0,
            handed(r, old(self)@.allocated(nbytes, kind).1),
            r matches Ok(b) ==> b@.wf() && b@.nbytes == nbytes && b@.kind == kind && b@.runtime
                == old(self)@.id && final(self)@.held.contains_key(b@.slab.id),
    {
        proof {
            reveal(RuntimeState::allocated);
        }
        if kind == BufferKind::Cold {
            on_cold_alloc(&mut self.trace);
        }
        let grant = match self.pool.request(nbytes, self.info.max_buffer_length) {
            Ok(g) => g,
            Err(e) => {
                return Err(e);
            },
        };
        proof {
            crate::pool::law_grants_are_long_enough(old(self).pool@, nbytes as int);
        }
        let ghost granted = self@;
        let slab = match grant {
            Grant::Reuse(slab) => {
                proof {
                    lemma_reused(old(self)@, nbytes, slab);
                }
                slab
            },
            Grant::Create(key) => {
                let serials = self.serials;
                let next = match serials.address.checked_add(key as u64) {
                    Some(a) => a,
                    None => {
                        return Err(Msg::new("newBuffer(").num(key).text(") failed").done());
                    },
                };
                if serials.slab == u64::MAX {
                    return Err(Msg::new("newBuffer(").num(key).text(") failed").done());
                }
                let slab = Slab { id: serials.slab, length: key, address: serials.address };
                self.serials = Serials { slab: serials.slab + 1, address: next, ..serials };
                self.ops.push(DeviceOp::CreateBuffer { made: slab });
                proof {
                    lemma_created(old(self)@, slab);
                }
                slab
            },
        };
        self.ops.push(DeviceOp::AddResidency { slab: slab.id });
        self.residency = Residency { count: incr(self.residency.count), dirty: true };
        self.held.insert(slab.id, Held { slab, kind, owners: 1 });
        proof {
            lemma_handed(
                granted.pool.free,
                granted.pending,
                old(self)@.held,
                self.serials.slab,
                slab,
                kind,
            );
        }
        Ok(GpuBuffer::handle(Storage { slab, nbytes, kind, runtime: self.id }))
    }

    /// Another handle of the same storage.
    pub fn share_buffer(&mut self, buf: &GpuBuffer) -> (r: GpuBuffer)
        requires
            old(self).inv(),
            buf@.runtime == old(self)@.id,
        ensures
            final(self).inv(),
            final(self)@ == old(self)@.shared(buf@),
            r@ == buf@,
    {
        let at = buf.at();
        self.count_up(at);
        GpuBuffer::handle(at)
    }

    /// Gives a handle up. With the last one hot storage stays resident and the
    /// rest is recycled once the device has caught up.
    pub fn recycle_buffer(&mut self, buf: GpuBuffer)
        requires
            old(self).inv(),
        ensures
            final(self).inv(),
            final(self)@ == old(self)@.retired(buf@),
    {
        self.count_down(buf.at());
    }

    /// Gives the handles of a tape up.
    pub fn let_go(&mut self, hold: TapeHold)
        requires
            old(self).inv(),
        ensures
            final(self).inv(),
            final(self)@ == old(self)@.let_go(hold@),
    {
        let kept = hold.into_kept();
        self.give_up(&kept);
    }

    pub(crate) fn give_up(&mut self, kept: &Vec<Storage>)
        requires
            old(self).inv(),
        ensures
            final(self).inv(),
            final(self)@ == old(self)@.let_go(kept@),
    {
        let mut i: usize = 0;
        while i < kept.len()
            invariant
                self.inv(),
                i <= kept@.len(),
                self@ == old(self)@.retired_to(kept@, i as int),
            decreases kept@.len() - i,
        {
            self.count_down(kept[i]);
            i += 1;
        }
    }

    /// Whether a handle of this runtime names the storage.
    pub fn holds_storage(&self, b: &Storage) -> (r: bool)
        requires
            self.inv(),
        ensures
            r == self@.holds(*b),
    {
        b.runtime == self.id && self.held.contains_key(&b.slab.id)
    }

    /// Takes a handle of each that is held here; returns those.
    pub(crate) fn take_handles(&mut self, all: &Vec<Storage>) -> (r: Vec<Storage>)
        requires
            old(self).inv(),
        ensures
            final(self).inv(),
            (final(self)@, r@) == old(self)@.taken(all@, all@.len() as int),
    {
        let mut kept: Vec<Storage> = Vec::new();
        let mut i: usize = 0;
        assert(kept@ =~= Seq::<Storage>::empty());
        while i < all.len()
            invariant
                self.inv(),
                i <= all@.len(),
                (self@, kept@) == old(self)@.taken(all@, i as int),
            decreases all@.len() - i,
        {
            let b = all[i];
            if self.holds_storage(&b) {
                self.count_up(b);
                kept.push(b);
            }
            i += 1;
        }
        kept
    }

    fn count_up(&mut self, b: Storage)
        requires
            old(self).inv(),
        ensures
            final(self).inv(),
            final(self)@ == old(self)@.shared(b),
    {
        proof {
            reveal(RuntimeState::shared);
            reveal(stored);
        }
        if b.runtime != self.id {
            return;
        }
        let h: Held = match self.held.get(&b.slab.id) {
            Some(h) => *h,
            None => {
                return;
            },
        };
        let owners: u64 = h.owners.saturating_add(1);
        self.held.insert(b.slab.id, Held { owners, ..h });
        proof {
            assert(self@ =~= old(self)@.shared(b));
        }
    }

    fn count_down(&mut self, b: Storage)
        requires
            old(self).inv(),
        ensures
            final(self).inv(),
            final(self)@ == old(self)@.retired(b),
    {
        proof {
            reveal(RuntimeState::retired);
        }
        if b.runtime != self.id {
            return;
        }
        let id: u64 = b.slab.id;
        let h: Held = match self.held.get(&id) {
            Some(h) => *h,
            None => {
                return;
            },
        };
        let arena = self.on_arena(id) || find_arena(&self.replaced, id).is_some();
        if h.owners == u64::MAX || (h.owners <= 1 && arena) {
            return;
        }
        if h.owners > 1 {
            self.held.insert(id, Held { owners: h.owners - 1, ..h });
            proof {
                reveal(stored);
                assert(self@ =~= old(self)@.retired(b));
            }
            return;
        }
        self.held.remove(&id);
        if h.kind != BufferKind::Hot {
            self.pending.push(h.slab);
        }
        proof {
            lemma_last(old(self)@, id);
            lemma_arena_at(self.replaced@, id, self.replaced@.len() as int);
            assert(self@ =~= old(self)@.retired(b));
        }
    }

    /// The device has caught up: waiting slabs leave the residency set and go
    /// back to the pool.
    fn drain_cold_recycles(&mut self)
        requires
            old(self).inv(),
        ensures
            final(self).inv(),
            final(self)@ == old(self)@.drained(),
    {
        proof {
            reveal(RuntimeState::drained);
        }
        let mut pending: Vec<Slab> = Vec::new();
        std::mem::swap(&mut pending, &mut self.pending);
        if pending.len() == 0 {
            proof {
                assert(self@.pending == old(self)@.pending);
                assert(self@ =~= old(self)@);
            }
            return;
        }
        let ghost full = old(self)@;
        let mut i: usize = 0;
        proof {
            assert(self@ =~= (RuntimeState { pending: Seq::empty(), ..full.drained_to(0) }));
            assert(pending@.skip(0) =~= pending@);
            lemma_fewer(self@.pool.free, pending@, self@.held, self@.serials.slab);
        }
        while i < pending.len()
            invariant
                pending@ == full.pending,
                i <= pending@.len(),
                self.inv(),
                forall|k: int|
                    0 <= k < pending@.len() ==> is_bucket(#[trigger] pending@[k].length as int),
                self@ == (RuntimeState { pending: Seq::empty(), ..full.drained_to(i as int) }),
                stored(
                    self@.pool.free,
                    pending@.skip(i as int),
                    self@.held,
                    self@.serials.slab,
                ),
            decreases pending@.len() - i,
        {
            let slab = pending[i];
            assert(is_bucket(pending@[i as int].length as int));
            self.unregister_residency(slab.id);
            proof {
                lemma_drains(
                    self@.pool.free,
                    pending@.skip(i as int),
                    self@.held,
                    self@.serials.slab,
                );
                assert(pending@.skip(i as int).drop_first() =~= pending@.skip(i + 1));
                assert(pending@.skip(i as int)[0] == slab);
            }
            if !self.pool.recycle(slab) {
                self.ops.push(DeviceOp::DropBuffer { slab: slab.id });
            }
            proof {
                lemma_fewer(
                    self@.pool.free,
                    pending@.skip(i + 1),
                    self@.held,
                    self@.serials.slab,
                );
                lemma_drained_pending(full, i as int);
                assert(self@ =~= (RuntimeState {
                    pending: Seq::empty(),
                    ..full.drained_to(i + 1)
                }));
            }
            i += 1;
        }
        self.flush_residency();
    }

    // --------------------------------------------------- command buffers ---

    fn reset_reached(&mut self, value: u64)
        requires
            old(self).inv(),
        ensures
            final(self).inv(),
            final(self)@ == (RuntimeState {
                allocators: old(self)@.allocators.reached(value),
                ..old(self)@.with_ops(crate::state::resets(old(self)@.allocators, value))
            }),
    {
        let a = self.allocators;
        if a.in_flight_a != 0 && a.in_flight_a <= value {
            self.ops.push(DeviceOp::ResetAllocator { allocator: 0 });
            self.allocators.in_flight_a = 0;
        }
        if a.in_flight_b != 0 && a.in_flight_b <= value {
            self.ops.push(DeviceOp::ResetAllocator { allocator: 1 });
            self.allocators.in_flight_b = 0;
        }
        proof {
            assert(self@.ops =~= old(self)@.ops + crate::state::resets(
                old(self)@.allocators,
                value,
            ));
        }
    }

    #[verifier::rlimit(40)]
    fn ensure_m4_cb_open(&mut self)
        requires
            old(self).inv(),
        ensures
            final(self).inv(),
            final(self)@ == old(self)@.begun(),
    {
        proof {
            reveal(RuntimeState::begun);
        }
        let (open, dispatches, since): (bool, usize, usize) = match self.batch {
            Some(b) => (b.cb_open, b.dispatches, b.since_commit),
            None => (false, 0, 0),
        };
        if open {
            return;
        }
        let a = self.allocators;
        let at: usize = if a.in_flight_a == 0 {
            0
        } else if a.in_flight_b == 0 {
            1
        } else {
            let (i, v): (usize, u64) = if a.in_flight_a <= a.in_flight_b {
                (0, a.in_flight_a)
            } else {
                (1, a.in_flight_b)
            };
            self.ops.push(DeviceOp::WaitAllocator { value: v });
            self.reset_reached(v);
            i
        };
        self.allocators.active = at;
        self.ops.push(DeviceOp::BeginCommands { allocator: at });
        self.ops.push(DeviceOp::UseResidency);
        if self.info.counter_heap {
            self.ops.push(DeviceOp::Timestamp { index: 0 });
        }
        self.batch = Some(
            ActiveBatch {
                dispatches,
                since_commit: since,
                cb_open: true,
                stamped_t0: self.info.counter_heap,
                encoder: false,
                alloc_idx: at,
            },
        );
    }

    fn open_encoder(&mut self)
        requires
            old(self).inv(),
        ensures
            final(self).inv(),
            final(self)@ == old(self)@.encoder_opened(),
            final(self)@.batch is Some,
    {
        proof {
            reveal(RuntimeState::begun);
        }
        self.ensure_m4_cb_open();
        match self.batch {
            Some(b) => {
                if !b.encoder {
                    self.ops.push(DeviceOp::OpenEncoder);
                    self.batch = Some(ActiveBatch { encoder: true, ..b });
                }
            },
            None => {},
        }
    }

    fn wait_all_allocators(&mut self)
        requires
            old(self).inv(),
        ensures
            final(self).inv(),
            final(self)@ == old(self)@.caught_up(),
    {
        let a = self.allocators;
        let v: u64 = if a.in_flight_a >= a.in_flight_b {
            a.in_flight_a
        } else {
            a.in_flight_b
        };
        if v == 0 {
            return;
        }
        self.ops.push(DeviceOp::Wait { value: v });
        self.reset_reached(v);
    }

    fn commit_m4(&mut self, wait: bool)
        requires
            old(self).inv(),
        ensures
            final(self).inv(),
            final(self)@ == old(self)@.committed(wait),
    {
        proof {
            reveal(RuntimeState::committed);
        }
        let b = match self.batch {
            None => {
                if wait {
                    self.drain_cold_recycles();
                }
                return;
            },
            Some(b) => b,
        };
        if !b.cb_open {
            if wait {
                self.wait_all_allocators();
                self.batch = None;
                self.cursor = 0;
                self.drain_cold_recycles();
            }
            return;
        }
        let stamp = wait && b.stamped_t0;
        self.submit(b, stamp);
        if wait {
            self.settle(stamp);
            self.drain_cold_recycles();
        }
    }

    fn submit(&mut self, b: ActiveBatch, stamp: bool)
        requires
            old(self).inv(),
            old(self)@.batch == Some(b),
        ensures
            final(self).inv(),
            final(self)@ == old(self)@.submitted(b, stamp),
    {
        on_commit(&mut self.trace);
        if b.encoder {
            self.ops.push(DeviceOp::EndEncoding);
        }
        if stamp {
            self.ops.push(DeviceOp::Timestamp { index: 1 });
        }
        self.ops.push(DeviceOp::EndCommands);
        self.ops.push(DeviceOp::Submit);
        let event: u64 = self.allocators.event;
        let next: u64 = if event == u64::MAX {
            event
        } else {
            event + 1
        };
        self.ops.push(DeviceOp::Signal { value: next });
        self.batch = Some(ActiveBatch { cb_open: false, since_commit: 0, encoder: false, ..b });
        self.allocators.event = next;
        if b.alloc_idx == 0 {
            self.allocators.in_flight_a = next;
            self.allocators.active = 1;
        } else {
            self.allocators.in_flight_b = next;
            self.allocators.active = 0;
        }
    }

    fn settle(&mut self, stamp: bool)
        requires
            old(self).inv(),
        ensures
            final(self).inv(),
            final(self)@ == old(self)@.settled(stamp),
    {
        let value: u64 = self.allocators.event;
        self.ops.push(DeviceOp::Wait { value });
        self.reset_reached(u64::MAX);
        if stamp {
            self.ops.push(DeviceOp::ResolveTimestamps);
        }
        self.cursor = 0;
        self.batch = None;
    }
}

/// Names deciding the mid-commit threshold.
pub open spec fn mid_commit_of(env: Env) -> usize {
    let text = match env.value_of("TESSL_MID_COMMIT"@) {
        Some(v) => Some(v),
        None => env.value_of("METAL_RUNTIME_MID_COMMIT"@),
    };
    match text {
        None => 0,
        Some(v) => match crate::text::count_of(v) {
            Some(n) => n as usize,
            None => 0,
        },
    }
}

/// Dispatches after which a batch commits without waiting. Default: 0, never.
/// A canonical name that is set hides the legacy one, whatever it holds.
pub fn mid_commit_threshold(env: &Env) -> (r: usize)
    ensures
        r == mid_commit_of(*env),
{
    let text = match env.get("TESSL_MID_COMMIT") {
        Some(v) => Some(v),
        None => env.get("METAL_RUNTIME_MID_COMMIT"),
    };
    match text {
        None => 0,
        Some(v) => match crate::text::parse_count(v.as_str()) {
            Some(n) => n,
            None => 0,
        },
    }
}

/// A fresh runtime as data.
pub open spec fn fresh_runtime(
    id: u64,
    info: DeviceInfo,
    kernels: Seq<Kernel>,
    wired_budget: u64,
    ab: AbFlags,
    icb: IcbFlags,
    trace: InferTrace,
) -> RuntimeState {
    RuntimeState {
        id,
        info,
        kernels,
        overlays: 0,
        built: Seq::empty(),
        busy: false,
        failed: false,
        pool: PoolState { free: Seq::empty(), cap: DEFAULT_POOL_CACHE_BYTES as int },
        bump: None,
        replaced: Seq::empty(),
        async_encode: false,
        batch: None,
        allocators: Allocators { in_flight_a: 0, in_flight_b: 0, active: 0, event: 0 },
        cursor: 0,
        ops: Seq::empty(),
        blob: Seq::empty(),
        dispatch_count: 0,
        settings: Settings {
            precision: PrecisionMode::F32,
            relaxed_precision: false,
            flash_tensorops: false,
        },
        residency: Residency { count: 1, dirty: false },
        pending: Seq::empty(),
        held: Map::empty(),
        memory: DeviceMemoryInfo {
            recommended_working_set: info.recommended_working_set,
            memory_size: info.memory_size,
            wired_budget,
            pool_cache_cap: DEFAULT_POOL_CACHE_BYTES,
        },
        stamps: None,
        serials: Serials {
            slab: 1,
            address: if info.arena_address + METAL4_CONST_ARENA_BYTES > u64::MAX {
                u64::MAX
            } else {
                (info.arena_address + METAL4_CONST_ARENA_BYTES) as u64
            },
            table: 1,
            icb: 1,
        },
        mid_commit: mid_commit_of(ab.env),
        ab,
        icb,
        trace,
        capture: None,
    }
}

impl GpuRuntime {
    /// A runtime over a device and the kernels of its primary library. The
    /// constant arena is resident from the start.
    pub fn new(
        id: u64,
        info: DeviceInfo,
        kernels: Vec<Kernel>,
        wired_budget: u64,
        ab: AbFlags,
        icb: IcbFlags,
        trace: InferTrace,
    ) -> (r: GpuRuntime)
        ensures
            r.inv(),
            r@ == fresh_runtime(id, info, kernels@, wired_budget, ab, icb, trace),
    {
        let mid_commit: usize = mid_commit_threshold(&ab.env);
        let address: u64 = info.arena_address.saturating_add(METAL4_CONST_ARENA_BYTES as u64);
        let r = GpuRuntime {
            id,
            info,
            kernels,
            overlays: 0,
            built: Vec::new(),
            busy: false,
            failed: false,
            pool: BufferPool::new(DEFAULT_POOL_CACHE_BYTES),
            bump: None,
            replaced: Vec::new(),
            async_encode: false,
            batch: None,
            allocators: Allocators { in_flight_a: 0, in_flight_b: 0, active: 0, event: 0 },
            cursor: 0,
            ops: Vec::new(),
            blob: Vec::new(),
            dispatch_count: 0,
            settings: Settings {
                precision: PrecisionMode::F32,
                relaxed_precision: false,
                flash_tensorops: false,
            },
            residency: Residency { count: 1, dirty: false },
            pending: Vec::new(),
            held: HashMap::new(),
            memory: DeviceMemoryInfo {
                recommended_working_set: info.recommended_working_set,
                memory_size: info.memory_size,
                wired_budget,
                pool_cache_cap: DEFAULT_POOL_CACHE_BYTES,
            },
            stamps: None,
            serials: Serials { slab: 1, address, table: 1, icb: 1 },
            mid_commit,
            ab,
            icb,
            trace,
            capture: None,
        };
        proof {
            reveal(stored);
            reveal(arenas_apart);
            assert(r@ =~= fresh_runtime(id, info, kernels@, wired_budget, ab, icb, trace));
        }
        r
    }

    // ------------------------------------------------------------- access ---

    fn acquire_access(&mut self) -> (r: Result<(), String>)
        requires
            old(self).inv(),
        ensures
            final(self).inv(),
            reports(r, old(self)@.access_problem()),
            final(self)@ == (RuntimeState {
                busy: old(self)@.busy || r is Ok,
                ..old(self)@
            }),
    {
        if self.failed {
            return Err(owned("runtime is poisoned after encode/submit failure; recreate it"));
        }
        if self.busy {
            return Err(owned("runtime busy: another host mapping, encoder, or submit is active"));
        }
        self.busy = true;
        Ok(())
    }

    /// Takes the exclusive lease for the host, once all submitted work is done.
    /// Until [`Self::release_access`] nothing can be encoded or submitted.
    pub(crate) fn host_access(&mut self) -> (r: Result<(), String>)
        requires
            old(self).inv(),
        ensures
            final(self).inv(),
            reports(r, old(self)@.access_problem()),
            final(self)@ == if r is Ok {
                RuntimeState { busy: true, ..old(self)@ }.committed(true)
            } else {
                old(self)@
            },
            r is Ok ==> final(self)@.busy,
    {
        match self.acquire_access() {
            Err(e) => Err(e),
            Ok(()) => {
                self.commit_m4(true);
                proof {
                    lemma_committed_frame(RuntimeState { busy: true, ..old(self)@ }, true);
                }
                Ok(())
            },
        }
    }

    /// Gives the lease back.
    pub(crate) fn release_access(&mut self)
        requires
            old(self).inv(),
        ensures
            final(self).inv(),
            final(self)@ == (RuntimeState { busy: false, ..old(self)@ }),
    {
        self.busy = false;
    }

    /// A wait timed out or an operation failed on the device: nothing can be
    /// encoded again, and no cached slab is handed out, since the device may
    /// still be using it.
    pub fn wait_failed(&mut self)
        requires
            old(self).inv(),
        ensures
            final(self).inv(),
            final(self)@ == (RuntimeState {
                failed: true,
                pool: PoolState { free: Seq::empty(), ..old(self)@.pool },
                ..old(self)@
            }),
    {
        self.failed = true;
        proof {
            lemma_cleared(self@.pool.free, self@.pending, self@.held, self@.serials.slab);
        }
        self.pool.clear();
    }

    /// The device made what `op` asked for. A bump arena that was kept for the
    /// case that its successor's slab is refused lets go of its own.
    pub fn creation_confirmed(&mut self, op: DeviceOp)
        requires
            old(self).inv(),
        ensures
            final(self).inv(),
            final(self)@ == old(self)@.confirmed(op),
    {
        let id: u64 = match op {
            DeviceOp::CreateBuffer { made } => made.id,
            _ => {
                return;
            },
        };
        let before: usize = if self.on_arena(id) {
            self.replaced.len()
        } else {
            match find_arena(&self.replaced, id) {
                Some(at) => at,
                None => 0,
            }
        };
        proof {
            reveal(arenas_apart);
            lemma_arena_at(self.replaced@, id, self.replaced@.len() as int);
        }
        let kept = self.replaced.split_off(before);
        let mut gone: Vec<BumpState> = kept;
        std::mem::swap(&mut gone, &mut self.replaced);
        self.leave_arenas(&gone);
    }

    /// Gives up what arenas have a handle of.
    fn leave_arenas(&mut self, gone: &Vec<BumpState>)
        requires
            old(self).inv(),
        ensures
            final(self).inv(),
            final(self)@ == old(self)@.let_go(arena_buffers(gone@)),
    {
        let mut all: Vec<Storage> = Vec::new();
        let mut i: usize = 0;
        while i < gone.len()
            invariant
                i <= gone@.len(),
                all@ == arena_buffers(gone@.take(i as int)),
            decreases gone@.len() - i,
        {
            all.push(gone[i].buffer);
            i += 1;
            assert(all@ =~= arena_buffers(gone@.take(i as int)));
        }
        assert(gone@.take(gone@.len() as int) =~= gone@);
        self.give_up(&all);
    }

    /// The slab is the bump arena's.
    fn on_arena(&self, id: u64) -> (r: bool)
        ensures
            r == self@.is_arena(id),
    {
        match self.bump {
            Some(b) => b.buffer.slab.id == id,
            None => false,
        }
    }

    /// The device refused to make what `op` asked for: the grant is undone, and
    /// the runtime stays usable.
    pub fn creation_refused(&mut self, op: DeviceOp)
        requires
            old(self).inv(),
        ensures
            final(self).inv(),
            final(self)@ == old(self)@.undone(op),
    {
        match op {
            DeviceOp::CreateBuffer { made } => {
                proof {
                    lemma_struck(
                        self@.pool.free,
                        self@.pending,
                        self@.held,
                        self@.serials.slab,
                        made.id,
                    );
                }
                proof {
                    lemma_dropped_arenas(self@, made.id);
                }
                let ghost waiting = self.pending@;
                let was_held = self.held.contains_key(&made.id);
                let waited = forget(&mut self.pending, made.id).is_some();
                proof {
                    let at = numbered(waiting, made.id, waiting.len() as int);
                    assert forall|i: int| 0 <= i < self.pending@.len() implies is_bucket(
                        #[trigger] self.pending@[i].length as int,
                    ) by {
                        if 0 <= at < waiting.len() && i >= at {
                            assert(self.pending@[i] == waiting[i + 1]);
                        } else {
                            assert(self.pending@[i] == waiting[i]);
                        }
                    }
                }
                self.held.remove(&made.id);
                self.pool.forget(made.id);
                self.drop_arenas(made.id);
                if was_held || waited {
                    self.drop_resident();
                }
                assert(self@ =~= old(self)@.undone(op));
            },
            DeviceOp::BuildPipeline { kernel, indirect } => {
                self.unbuild(kernel, indirect);
            },
            DeviceOp::CreateIcb { .. } => {
                self.drop_resident();
            },
            _ => {},
        }
    }

    /// Takes every arena on slab `id` away. The latest of those that are left is
    /// the bump arena then.
    fn drop_arenas(&mut self, id: u64)
        ensures
            final(self)@ == (RuntimeState {
                bump: old(self)@.arenas_without(id).0,
                replaced: old(self)@.arenas_without(id).1,
                ..old(self)@
            }),
            final(self).pool == old(self).pool,
    {
        let mut rest: Vec<BumpState> = Vec::new();
        let mut i: usize = 0;
        assert(rest@ =~= arenas_off(self.replaced@.take(0), id));
        while i < self.replaced.len()
            invariant
                *self == *old(self),
                i <= self.replaced@.len(),
                rest@ == arenas_off(self.replaced@.take(i as int), id),
            decreases self.replaced@.len() - i,
        {
            assert(self.replaced@.take(i + 1).drop_last() =~= self.replaced@.take(i as int));
            let b = self.replaced[i];
            if b.buffer.slab.id != id {
                rest.push(b);
            }
            i += 1;
        }
        assert(self.replaced@.take(i as int) =~= self.replaced@);
        if self.on_arena(id) {
            self.bump = rest.pop();
        }
        self.replaced = rest;
        assert(self@ =~= (RuntimeState {
            bump: old(self)@.arenas_without(id).0,
            replaced: old(self)@.arenas_without(id).1,
            ..old(self)@
        }));
    }

    fn drop_resident(&mut self)
        ensures
            final(self)@ == (RuntimeState {
                residency: old(self)@.less_resident(),
                ..old(self)@
            }),
            final(self).pool == old(self).pool,
    {
        let n: usize = self.residency.count;
        if n > 0 {
            self.residency.count = n - 1;
        }
    }

    fn unbuild(&mut self, kernel: usize, indirect: bool)
        requires
            old(self).inv(),
        ensures
            final(self).inv(),
            final(self)@ == (RuntimeState {
                built: unbuilt(old(self)@.built, kernel, indirect),
                ..old(self)@
            }),
    {
        let ghost test = |p: Pipeline| !(p.kernel == kernel && p.icb == indirect);
        let mut kept: Vec<Pipeline> = Vec::new();
        let mut i: usize = 0;
        assert(self.built@.take(0).filter(test) =~= Seq::<Pipeline>::empty()) by {
            reveal(Seq::filter);
        }
        while i < self.built.len()
            invariant
                *self == *old(self),
                i <= self.built@.len(),
                forall|p: Pipeline| #[trigger]
                    test(p) == !(p.kernel == kernel && p.icb == indirect),
                kept@ == self.built@.take(i as int).filter(test),
            decreases self.built@.len() - i,
        {
            let p = self.built[i];
            proof {
                reveal(Seq::filter);
                assert(self.built@.take(i + 1).drop_last() =~= self.built@.take(i as int));
            }
            if !(p.kernel == kernel && p.icb == indirect) {
                kept.push(p);
            }
            i += 1;
        }
        assert(self.built@.take(i as int) =~= self.built@);
        self.built = kept;
    }

    // ------------------------------------------------------------- commit ---

    /// Ends encoding and commits, waiting for the device or not.
    pub fn commit(&mut self, wait: bool) -> (r: Result<(), String>)
        requires
            old(self).inv(),
        ensures
            final(self).inv(),
            reports(r, old(self)@.access_problem()),
            final(self)@ == if r is Ok {
                old(self)@.committed(wait)
            } else {
                old(self)@
            },
    {
        match self.acquire_access() {
            Err(e) => Err(e),
            Ok(()) => {
                self.busy = false;
                proof {
                    assert(self@ =~= old(self)@);
                }
                self.commit_m4(wait);
                Ok(())
            },
        }
    }

    /// Commits and waits. Required before host readbacks.
    pub fn synchronize(&mut self) -> (r: Result<(), String>)
        requires
            old(self).inv(),
        ensures
            final(self).inv(),
            reports(r, old(self)@.access_problem()),
            final(self)@ == if r is Ok {
                old(self)@.committed(true)
            } else {
                old(self)@
            },
    {
        self.commit(true)
    }

    /// Multi-kernel command buffers on or off; turning them off synchronizes.
    pub fn set_async_encode(&mut self, on: bool) -> (r: Result<(), String>)
        requires
            old(self).inv(),
        ensures
            final(self).inv(),
            reports(
                r,
                if on {
                    None
                } else {
                    old(self)@.access_problem()
                },
            ),
            final(self)@ == if r is Err {
                old(self)@
            } else if on {
                RuntimeState { async_encode: true, ..old(self)@ }
            } else {
                RuntimeState { async_encode: false, ..old(self)@.committed(true) }
            },
    {
        if !on {
            match self.synchronize() {
                Err(e) => {
                    return Err(e);
                },
                Ok(()) => {},
            }
        }
        self.async_encode = on;
        Ok(())
    }

    // ------------------------------------------------------------- scopes ---

    /// Whether a scope may open: `Ok(false)` while encoding is a no-op, the
    /// refusal where access is refused.
    pub(crate) fn may_open_scope(&self) -> (r: Result<bool, String>)
        ensures
            self@.icb.encode_nop ==> r == Ok::<bool, String>(false),
            !self@.icb.encode_nop ==> reports(r, self@.access_problem()) && (r matches Ok(b) ==> b),
    {
        if self.icb.encode_nop {
            return Ok(false);
        }
        if self.failed {
            return Err(owned("runtime is poisoned after encode/submit failure; recreate it"));
        }
        if self.busy {
            return Err(owned("runtime busy: another host mapping, encoder, or submit is active"));
        }
        Ok(true)
    }

    /// Opens a binder scope: takes the lease, flushes residency and opens the
    /// packed encoder.
    pub(crate) fn open_scope(&mut self, skip_auto: Option<bool>) -> (b: Binder)
        requires
            old(self).inv(),
            old(self)@.access_problem() is None,
        ensures
            final(self).inv(),
            (final(self)@, b@) == old(self)@.scoped(skip_auto),
            final(self)@.batch is Some,
    {
        proof {
            reveal(RuntimeState::scoped);
            reveal(RuntimeState::begun);
        }
        self.busy = true;
        self.flush_residency();
        self.open_encoder();
        let skip = match skip_auto {
            Some(b) => b,
            None => hazard_barriers(&mut self.ab),
        };
        let mut ops: Vec<DeviceOp> = Vec::new();
        std::mem::swap(&mut ops, &mut self.ops);
        let mut blob: Vec<u8> = Vec::new();
        std::mem::swap(&mut blob, &mut self.blob);
        let capture = self.capture.take();
        let b = Binder::new(
            self.id,
            self.info.arena_address,
            self.cursor,
            skip,
            ops,
            blob,
            self.trace,
            capture,
        );
        proof {
            let (s, v) = old(self)@.scoped(skip_auto);
            assert(self@ =~= s);
            assert(b@ =~= v);
        }
        b
    }

    /// Puts a recording back after a scope, with handles of what it binds.
    fn put_back(&mut self, capture: Option<DecodeIcbCapture>)
        requires
            old(self).inv(),
        ensures
            final(self).inv(),
            final(self)@ == old(self)@.with_recording(capture_of(capture)),
    {
        match capture {
            None => {
                self.capture = None;
            },
            Some(c) => {
                let mut c = c;
                let mut taken = self.take_handles(c.fresh());
                c.settle(&mut taken);
                self.capture = Some(c);
            },
        }
    }

    /// Closes a binder scope. A failure, of the callback or of the binder,
    /// poisons the runtime; else the batch grows by one and commits where its
    /// threshold or synchronous mode says so.
    pub(crate) fn close_scope(&mut self, b: Binder, outcome: Result<(), String>) -> (r: Result<
        (),
        String,
    >)
        requires
            old(self).inv(),
            old(self)@.batch is Some,
        ensures
            final(self).inv(),
            ({
                let (s, problem) = old(self)@.unscoped(
                    b@,
                    match outcome {
                        Ok(_) => None,
                        Err(e) => Some(e@),
                    },
                );
                final(self)@ == s && reports(r, problem)
            }),
    {
        proof {
            reveal(RuntimeState::unscoped);
        }
        let parts = b.into_parts();
        self.busy = false;
        self.ops = parts.ops;
        self.blob = parts.blob;
        self.cursor = parts.cursor;
        self.trace = parts.trace;
        let ghost s0 = self@;
        self.put_back(parts.capture);
        proof {
            lemma_recording_frame(s0, b@.capture);
        }
        let problem: Option<String> = match outcome {
            Err(e) => Some(e),
            Ok(()) => parts.error,
        };
        match problem {
            Some(e) => {
                self.failed = true;
                if !self.async_encode {
                    self.dispatch_count = incr(self.dispatch_count);
                }
                return Err(e);
            },
            None => {},
        }
        let full = match self.batch {
            None => false,
            Some(batch) => {
                let dispatches: usize = incr(batch.dispatches);
                let since: usize = incr(batch.since_commit);
                self.batch = Some(ActiveBatch { dispatches, since_commit: since, ..batch });
                (self.mid_commit > 0 && since >= self.mid_commit) || dispatches
                    >= BATCH_DISPATCH_CAP
            },
        };
        let ghost t = self@;
        if full {
            self.commit_m4(false);
            proof {
                lemma_committed_frame(t, false);
            }
        }
        if !self.async_encode {
            self.commit_m4(true);
        }
        self.dispatch_count = incr(self.dispatch_count);
        Ok(())
    }

    /// Encodes a compute pass. `f` gets the binder; its failure, or the
    /// binder's, poisons the runtime.
    pub fn with_binder<F: FnOnce(&mut Binder) -> Result<(), String>>(&mut self, f: F) -> (r: Result<
        (),
        String,
    >)
        requires
            old(self).inv(),
            forall|b: &mut Binder| f.requires((b,)),
        ensures
            final(self).inv(),
            old(self)@.icb.encode_nop ==> r is Ok && final(self)@ == old(self)@,
            !old(self)@.icb.encode_nop && old(self)@.access_problem() is Some ==> final(self)@
                == old(self)@ && reports(r, old(self)@.access_problem()),
            !old(self)@.icb.encode_nop && old(self)@.access_problem() is None ==> exists|
                b: &mut Binder,
                out: Result<(), String>,
            |
                {
                    &&& #[trigger] f.ensures((b,), out)
                    &&& (*b)@ == old(self)@.scoped(None).1
                    &&& closed_with(
                        old(self)@.scoped(None).0,
                        (*final(b))@,
                        out,
                        final(self)@,
                        r,
                    )
                },
    {
        self.with_binder_barriers(None, f)
    }

    /// [`Self::with_binder`] with the scope's barrier mode forced: `Some(true)`
    /// skips the barrier after each dispatch.
    pub fn with_binder_barriers<F: FnOnce(&mut Binder) -> Result<(), String>>(
        &mut self,
        skip_auto: Option<bool>,
        f: F,
    ) -> (r: Result<(), String>)
        requires
            old(self).inv(),
            forall|b: &mut Binder| f.requires((b,)),
        ensures
            final(self).inv(),
            old(self)@.icb.encode_nop ==> r is Ok && final(self)@ == old(self)@,
            !old(self)@.icb.encode_nop && old(self)@.access_problem() is Some ==> final(self)@
                == old(self)@ && reports(r, old(self)@.access_problem()),
            !old(self)@.icb.encode_nop && old(self)@.access_problem() is None ==> exists|
                b: &mut Binder,
                out: Result<(), String>,
            |
                {
                    &&& #[trigger] f.ensures((b,), out)
                    &&& (*b)@ == old(self)@.scoped(skip_auto).1
                    &&& closed_with(
                        old(self)@.scoped(skip_auto).0,
                        (*final(b))@,
                        out,
                        final(self)@,
                        r,
                    )
                },
    {
        match self.may_open_scope() {
            Err(e) => {
                return Err(e);
            },
            Ok(live) => {
                if !live {
                    return Ok(());
                }
            },
        }
        let mut b = self.open_scope(skip_auto);
        let ghost mid = self@;
        let ghost b0 = b@;
        let outcome = f(&mut b);
        let r = self.close_scope(b, outcome);
        proof {
            assert((mid, b0) == old(self)@.scoped(skip_auto));
            assert(closed_with(mid, b@, outcome, self@, r));
        }
        r
    }

    /// One launch: pipeline, binds, threadgroup memory and one dispatch, in a
    /// scope of their own.
    pub fn launch(
        &mut self,
        p: &Pipeline,
        binds: &[Bind],
        tg_mem: Option<(usize, usize)>,
        groups: MtlSize,
        threads: MtlSize,
    ) -> (r: Result<(), String>)
        requires
            old(self).inv(),
        ensures
            final(self).inv(),
            final(self)@ == old(self)@.launched(*p, binds@, tg_mem, groups, threads).0,
            reports(r, old(self)@.launched(*p, binds@, tg_mem, groups, threads).1),
    {
        proof {
            reveal(RuntimeState::launched);
        }
        match self.may_open_scope() {
            Err(e) => {
                return Err(e);
            },
            Ok(live) => {
                if !live {
                    return Ok(());
                }
            },
        }
        let mut b = self.open_scope(None);
        b.set_pipeline(p);
        b.bind_all(binds);
        match tg_mem {
            Some((index, length)) => b.set_threadgroup_memory(index, length),
            None => {},
        }
        b.dispatch(groups, threads);
        self.close_scope(b, Ok(()))
    }

    // ---------------------------------------------------------- pipelines ---

    /// The pipeline of a kernel, built on first use.
    pub fn pipeline(&mut self, name: &str) -> (r: Result<Pipeline, String>)
        requires
            old(self).inv(),
        ensures
            final(self).inv(),
            final(self)@ == old(self)@.piped(name@).0,
            outcome(r, old(self)@.piped(name@).1),
    {
        proof {
            reveal(RuntimeState::piped);
        }
        if self.icb.encode_nop {
            return self.pipeline_nop_standin();
        }
        let icb = icb_pipelines_enabled(&mut self.icb, &self.ab.env);
        let r = match find_kernel(&self.kernels, name, None) {
            None => Err(Msg::new("kernel '").text(name).text("' not found in metallib").done()),
            Some(at) => {
                let p = Pipeline {
                    kernel: at,
                    icb,
                    thread_execution_width: self.kernels[at].thread_execution_width,
                    max_threads: self.kernels[at].max_threads,
                };
                if contains_pipeline(&self.built, &p) {
                    Ok(p)
                } else if icb && !self.kernels[at].icb_capable {
                    Err(
                        Msg::new("ICB pipeline '").text(name).text(
                            "' supportIndirectCommandBuffers=false",
                        ).done(),
                    )
                } else {
                    self.ops.push(DeviceOp::BuildPipeline { kernel: at, indirect: icb });
                    self.built.push(p);
                    Ok(p)
                }
            },
        };
        proof {
            lemma_wf_frame(old(self)@, self@);
        }
        r
    }

    fn pipeline_nop_standin(&self) -> (r: Result<Pipeline, String>)
        ensures
            outcome(
                r,
                if self@.built.len() > 0 {
                    Ok(self@.built[0])
                } else {
                    Err("pipeline_nop_standin: empty cache (binder-nop before any live encode?)"@)
                },
            ),
    {
        if self.built.len() > 0 {
            Ok(self.built[0])
        } else {
            Err(
                owned("pipeline_nop_standin: empty cache (binder-nop before any live encode?)"),
            )
        }
    }

    /// Adds the kernels of an overlay library, searched after the primary one
    /// and earlier overlays.
    pub fn add_metallib(&mut self, kernels: Vec<Kernel>)
        requires
            old(self).inv(),
            old(self)@.overlays < usize::MAX,
        ensures
            final(self).inv(),
            final(self)@.overlays == old(self)@.overlays + 1,
            final(self)@.kernels.len() == old(self)@.kernels.len() + kernels@.len(),
            final(self)@.kernels.take(old(self)@.kernels.len() as int) == old(self)@.kernels,
            forall|i: int|
                0 <= i < kernels@.len() ==> ({
                    let k = #[trigger] final(self)@.kernels[old(self)@.kernels.len() + i];
                    k == (Kernel { library: final(self)@.overlays, ..kernels@[i] })
                }),
            final(self)@ == (RuntimeState {
                overlays: final(self)@.overlays,
                kernels: final(self)@.kernels,
                ..old(self)@
            }),
    {
        self.overlays = self.overlays + 1;
        let ghost base = self.kernels@;
        let mut rest = kernels;
        let mut added: Vec<Kernel> = Vec::new();
        while rest.len() > 0
            invariant
                rest@.len() + added@.len() == kernels@.len(),
                rest@ == kernels@.take(rest@.len() as int),
                forall|i: int|
                    0 <= i < added@.len() ==> #[trigger] added@[i] == (Kernel {
                        library: self.overlays,
                        ..kernels@[kernels@.len() - 1 - i]
                    }),
            decreases rest@.len(),
        {
            let ghost n = rest@.len();
            let mut k = rest.pop().unwrap();
            proof {
                assert(kernels@.take(n as int).drop_last() == kernels@.take(n - 1));
            }
            k.library = self.overlays;
            added.push(k);
        }
        let ghost staged = added@;
        while added.len() > 0
            invariant
                staged.len() == kernels@.len(),
                added@.len() <= staged.len(),
                added@ == staged.take(added@.len() as int),
                self.kernels@.len() == base.len() + staged.len() - added@.len(),
                self.kernels@.take(base.len() as int) == base,
                forall|i: int|
                    0 <= i < staged.len() ==> #[trigger] staged[i] == (Kernel {
                        library: self.overlays,
                        ..kernels@[kernels@.len() - 1 - i]
                    }),
                forall|i: int|
                    0 <= i < staged.len() - added@.len() ==> #[trigger] self.kernels@[base.len() + i]
                        == (Kernel { library: self.overlays, ..kernels@[i] }),
                *self == (GpuRuntime { kernels: self.kernels, overlays: self.overlays, ..*old(self) }),
                self.overlays == old(self).overlays + 1,
                old(self).inv(),
            decreases added@.len(),
        {
            let ghost n = added@.len();
            let ghost before = self.kernels@;
            let k = added.pop().unwrap();
            proof {
                assert(staged.take(n as int).drop_last() == staged.take(n - 1));
                assert(k == staged[n - 1]);
            }
            self.kernels.push(k);
            proof {
                assert(self.kernels@.take(base.len() as int) =~= base);
                assert forall|i: int| 0 <= i < staged.len() - added@.len() implies #[trigger] self.kernels@[base.len()
                    + i] == (Kernel { library: self.overlays, ..kernels@[i] }) by {
                    if i < staged.len() - n {
                        assert(self.kernels@[base.len() + i] == before[base.len() + i]);
                    }
                }
            }
        }
    }

    // --------------------------------------------------------------- bump ---

    /// Some view of the arena's slab is held.
    fn arena_shared(&self) -> (r: bool)
        requires
            self.inv(),
        ensures
            r == self@.bump_shared(),
    {
        match self.bump {
            None => false,
            Some(b) => match self.held.get(&b.buffer.slab.id) {
                Some(h) => h.owners > 1,
                None => false,
            },
        }
    }

    /// Makes another slab the bump arena. Where the device has still to make it,
    /// the arenas before it are kept.
    fn rearm(&mut self, buffer: GpuBuffer, capacity: usize, unmade: bool)
        requires
            old(self).inv(),
            buffer@.wf(),
            buffer@.nbytes == capacity <= isize::MAX,
            buffer@.runtime == old(self)@.id,
            old(self)@.held.contains_key(buffer@.slab.id),
            arenas_apart(Some(buffer@.slab.id), old(self)@.outgoing()),
        ensures
            final(self).inv(),
            final(self)@ == old(self)@.rearmed(buffer@, capacity, unmade),
    {
        proof {
            reveal(arenas_apart);
        }
        match self.bump {
            Some(b) => {
                self.replaced.push(b);
            },
            None => {},
        }
        self.bump = Some(BumpState { buffer: buffer.at(), cursor: 0, capacity });
        if !unmade {
            let mut gone: Vec<BumpState> = Vec::new();
            std::mem::swap(&mut gone, &mut self.replaced);
            assert(gone@ =~= old(self)@.outgoing());
            self.leave_arenas(&gone);
        }
    }

    /// Ensures a bump slab of at least `capacity` bytes. A slab that is replaced
    /// stays until the device has made the new one
    /// ([`Self::creation_confirmed`]) and the last view of it is let go; where the
    /// device refuses ([`Self::creation_refused`]), the old arena is back.
    pub fn ensure_bump(&mut self, capacity: usize) -> (r: Result<(), String>)
        requires
            old(self).inv(),
        ensures
            final(self).inv(),
            final(self)@ == old(self)@.bump_ensured(capacity).0,
            reports(r, old(self)@.bump_ensured(capacity).1),
    {
        let rounded: usize = match next_pow2_within(capacity, isize::MAX as usize) {
            Some(p) => p,
            None => {
                return Err(owned("bump capacity overflow"));
            },
        };
        let cap: usize = if rounded >= 256 {
            rounded
        } else {
            256
        };
        match self.bump {
            Some(b) => {
                if b.capacity >= cap {
                    return Ok(());
                }
            },
            None => {},
        }
        let next: u64 = self.serials.slab;
        let buffer = match self.alloc_buffer_kind(cap, BufferKind::Bump) {
            Ok(b) => b,
            Err(e) => {
                return Err(e);
            },
        };
        proof {
            lemma_allocated_frame(old(self)@, cap, BufferKind::Bump);
            lemma_new_arena(old(self)@, cap);
        }
        let unmade = self.serials.slab != next;
        self.rearm(buffer, cap, unmade);
        Ok(())
    }

    /// A zeroed f32 tensor inside the bump slab, at a 16-byte aligned offset.
    pub fn bump_alloc_f32(&mut self, shape: &[usize]) -> (r: Result<Tensor, String>)
        requires
            old(self).inv(),
        ensures
            final(self).inv(),
            reports(r, old(self)@.bump_problem(shape@)),
            match r {
                Err(_) => final(self)@ == old(self)@,
                Ok(t) => {
                    &&& final(self)@ == old(self)@.bumped(t.span() as usize)
                    &&& t.buffer@ == old(self)@.bump->0.buffer
                    &&& t.shape@ == shape@
                    &&& t.dtype == DType::F32
                    &&& t.byte_offset == old(self)@.bump_start()
                    &&& t.runtime == old(self)@.id
                    &&& t.valid()
                },
            },
    {
        match self.acquire_access() {
            Err(e) => {
                return Err(e);
            },
            Ok(()) => {},
        }
        self.busy = false;
        proof {
            assert(self@ =~= old(self)@);
        }
        let nbytes: usize = match checked_nbytes(shape, DType::F32) {
            Ok(n) => n,
            Err(e) => {
                return Err(e);
            },
        };
        let b = match self.bump {
            Some(b) => b,
            None => {
                return Err(owned("bump arena not initialized; call ensure_bump first"));
            },
        };
        let start: usize = (b.cursor + 15) / 16 * 16;
        let inside = match start.checked_add(nbytes) {
            Some(end) => end <= b.capacity,
            None => false,
        };
        if !inside {
            return Err(
                Msg::new("bump arena exhausted: need ").num(nbytes).text(
                    " more bytes (cursor=",
                ).num(start).text(", cap=").num(b.capacity).text(")").done(),
            );
        }
        self.bump = Some(BumpState { cursor: start + nbytes, ..b });
        self.ops.push(DeviceOp::Zero { slab: b.buffer.slab.id, offset: start, len: nbytes });
        proof {
            assert(self@ =~= (RuntimeState {
                bump: Some(BumpState { cursor: (start + nbytes) as usize, ..b }),
                ..old(self)@.with_op(
                    DeviceOp::Zero { slab: b.buffer.slab.id, offset: start, len: nbytes },
                )
            }));
            lemma_handles_frame(self@, b.buffer);
        }
        self.count_up(b.buffer);
        Ok(
            Tensor {
                buffer: GpuBuffer::handle(b.buffer),
                shape: copy_shape(shape),
                dtype: DType::F32,
                byte_offset: start,
                runtime: self.id,
            },
        )
    }

    /// Synchronizes and resets the bump cursor. Where a view is still held a fresh
    /// slab takes the old one's place.
    pub fn bump_reset(&mut self)
        requires
            old(self).inv(),
            old(self)@.can_clear_bump(),
        ensures
            final(self).inv(),
            final(self)@ == old(self)@.bump_cleared(),
    {
        let cleared = self.try_bump_reset();
        assert(cleared);
    }

    /// [`Self::bump_reset`] where it can be carried out, `false` elsewhere. A
    /// refusal for want of storage comes after the synchronization.
    pub fn try_bump_reset(&mut self) -> (r: bool)
        requires
            old(self).inv(),
        ensures
            final(self).inv(),
            r == old(self)@.can_clear_bump(),
            r ==> final(self)@ == old(self)@.bump_cleared(),
            !r && old(self)@.access_problem() is Some ==> final(self)@ == old(self)@,
            !r && old(self)@.access_problem() is None ==> final(self)@ == old(self)@.committed(
                true,
            ).allocated(old(self)@.bump->0.capacity, BufferKind::Bump).0 && final(self)@.bump
                == old(self)@.bump,
    {
        if self.failed || self.busy {
            return false;
        }
        self.commit_m4(true);
        proof {
            lemma_committed_frame(old(self)@, true);
        }
        let ghost s = self@;
        let shared = self.arena_shared();
        match self.bump {
            None => true,
            Some(b) => {
                if !shared {
                    self.bump = Some(BumpState { cursor: 0, ..b });
                    true
                } else {
                    let next: u64 = self.serials.slab;
                    match self.alloc_buffer_kind(b.capacity, BufferKind::Bump) {
                        Ok(buffer) => {
                            proof {
                                lemma_allocated_frame(s, b.capacity, BufferKind::Bump);
                                lemma_new_arena(s, b.capacity);
                            }
                            let unmade = self.serials.slab != next;
                            self.rearm(buffer, b.capacity, unmade);
                            true
                        },
                        Err(_) => {
                            proof {
                                lemma_allocated_frame(s, b.capacity, BufferKind::Bump);
                            }
                            false
                        },
                    }
                }
            },
        }
    }

    /// Whether a bump slab exists.
    pub fn bump_enabled(&self) -> (r: bool)
        ensures
            r == (self@.bump is Some),
    {
        self.bump.is_some()
    }
}

/// `t` is the tensor over all of `buf` with these metadata.
pub open spec fn spans_buffer(
    t: Tensor,
    buf: Storage,
    shape: Seq<usize>,
    dtype: DType,
    runtime: u64,
) -> bool {
    &&& t.buffer@ == buf
    &&& t.shape@ == shape
    &&& t.dtype == dtype
    &&& t.byte_offset == 0
    &&& t.runtime == runtime
    &&& t.valid()
    &&& buf.wf()
    &&& buf.nbytes == t.span()
}

/// `r` is the tensor allocation that `expected` describes.
pub open spec fn tensor_outcome(
    r: Result<Tensor, String>,
    expected: Result<Storage, Seq<char>>,
    shape: Seq<usize>,
    dtype: DType,
    runtime: u64,
) -> bool {
    match expected {
        Ok(buf) => r is Ok && spans_buffer(r->Ok_0, buf, shape, dtype, runtime),
        Err(m) => r is Err && r->Err_0@ == m,
    }
}

/// A mapping as data.
#[derive(Clone, Copy, Debug, PartialEq, Eq, Structural)]
pub struct MappingView {
    pub buffer: Storage,
    pub len: usize,
}

/// A host view of a buffer as elements, under the exclusive lease. There is one
/// at a time, and [`GpuRuntime::unmap_host`] takes it.
#[derive(Debug)]
pub struct HostMapping {
    buffer: Storage,
    len: usize,
}

impl View for HostMapping {
    type V = MappingView;

    closed spec fn view(&self) -> MappingView {
        MappingView { buffer: self.buffer, len: self.len }
    }
}

impl HostMapping {
    /// Elements in view.
    pub fn len(&self) -> (r: usize)
        ensures
            r == self@.len,
    {
        self.len
    }

    /// What is mapped.
    pub fn buffer(&self) -> (r: Storage)
        ensures
            r == self@.buffer,
    {
        self.buffer
    }
}

impl GpuRuntime {
    // ------------------------------------------------------------ tensors ---

    fn alloc_tensor_kind(&mut self, shape: &[usize], dtype: DType, kind: BufferKind) -> (r: Result<
        Tensor,
        String,
    >)
        requires
            old(self).inv(),
        ensures
            final(self).inv(),
            final(self)@ == old(self)@.tensor_allocated(shape@, dtype, kind).0,
            tensor_outcome(
                r,
                old(self)@.tensor_allocated(shape@, dtype, kind).1,
                shape@,
                dtype,
                old(self)@.id,
            ),
    {
        proof {
            reveal(RuntimeState::tensor_allocated);
        }
        let nbytes: usize = match checked_nbytes(shape, dtype) {
            Ok(n) => n,
            Err(e) => {
                return Err(e);
            },
        };
        let buffer = match self.alloc_buffer_kind(nbytes, kind) {
            Ok(b) => b,
            Err(e) => {
                return Err(e);
            },
        };
        proof {
            lemma_allocated_frame(old(self)@, nbytes, kind);
        }
        self.ops.push(DeviceOp::Zero { slab: buffer.at().slab.id, offset: 0, len: nbytes });
        let t = Tensor { buffer, shape: copy_shape(shape), dtype, byte_offset: 0, runtime: self.id };
        Ok(t)
    }

    /// Zeroed cold f32 tensor.
    pub fn alloc_tensor_f32(&mut self, shape: &[usize]) -> (r: Result<Tensor, String>)
        requires
            old(self).inv(),
        ensures
            final(self).inv(),
            ({
                let (s, e) = old(self)@.tensor_allocated(shape@, DType::F32, BufferKind::Cold);
                final(self)@ == s && tensor_outcome(r, e, shape@, DType::F32, old(self)@.id)
            }),
    {
        self.alloc_tensor_kind(shape, DType::F32, BufferKind::Cold)
    }

    /// Zeroed hot f32 tensor.
    pub fn alloc_tensor_f32_hot(&mut self, shape: &[usize]) -> (r: Result<Tensor, String>)
        requires
            old(self).inv(),
        ensures
            final(self).inv(),
            ({
                let (s, e) = old(self)@.tensor_allocated(shape@, DType::F32, BufferKind::Hot);
                final(self)@ == s && tensor_outcome(r, e, shape@, DType::F32, old(self)@.id)
            }),
    {
        self.alloc_tensor_kind(shape, DType::F32, BufferKind::Hot)
    }

    /// Zeroed cold bf16 tensor.
    pub fn alloc_tensor_bf16(&mut self, shape: &[usize]) -> (r: Result<Tensor, String>)
        requires
            old(self).inv(),
        ensures
            final(self).inv(),
            ({
                let (s, e) = old(self)@.tensor_allocated(shape@, DType::BF16, BufferKind::Cold);
                final(self)@ == s && tensor_outcome(r, e, shape@, DType::BF16, old(self)@.id)
            }),
    {
        self.alloc_tensor_kind(shape, DType::BF16, BufferKind::Cold)
    }

    /// Zeroed hot bf16 tensor.
    pub fn alloc_tensor_bf16_hot(&mut self, shape: &[usize]) -> (r: Result<Tensor, String>)
        requires
            old(self).inv(),
        ensures
            final(self).inv(),
            ({
                let (s, e) = old(self)@.tensor_allocated(shape@, DType::BF16, BufferKind::Hot);
                final(self)@ == s && tensor_outcome(r, e, shape@, DType::BF16, old(self)@.id)
            }),
    {
        self.alloc_tensor_kind(shape, DType::BF16, BufferKind::Hot)
    }

    /// Zeroed cold f16 tensor.
    pub fn alloc_tensor_f16(&mut self, shape: &[usize]) -> (r: Result<Tensor, String>)
        requires
            old(self).inv(),
        ensures
            final(self).inv(),
            ({
                let (s, e) = old(self)@.tensor_allocated(shape@, DType::F16, BufferKind::Cold);
                final(self)@ == s && tensor_outcome(r, e, shape@, DType::F16, old(self)@.id)
            }),
    {
        self.alloc_tensor_kind(shape, DType::F16, BufferKind::Cold)
    }

    /// A bump tensor where the arena serves it, a pooled one otherwise.
    pub fn alloc_temp_f32(&mut self, shape: &[usize]) -> (r: Result<Tensor, String>)
        requires
            old(self).inv(),
        ensures
            final(self).inv(),
            match old(self)@.bump_problem(shape@) {
                None => {
                    &&& r is Ok
                    &&& final(self)@ == old(self)@.bumped(r->Ok_0.span() as usize)
                    &&& r->Ok_0.buffer@ == old(self)@.bump->0.buffer
                    &&& r->Ok_0.shape@ == shape@
                    &&& r->Ok_0.dtype == DType::F32
                    &&& r->Ok_0.byte_offset == old(self)@.bump_start()
                    &&& r->Ok_0.runtime == old(self)@.id
                    &&& r->Ok_0.valid()
                },
                Some(_) => {
                    let (s, e) = old(self)@.tensor_allocated(shape@, DType::F32, BufferKind::Cold);
                    final(self)@ == s && tensor_outcome(r, e, shape@, DType::F32, old(self)@.id)
                },
            },
    {
        if self.bump_enabled() {
            match self.bump_alloc_f32(shape) {
                Ok(t) => {
                    return Ok(t);
                },
                Err(_) => {},
            }
        }
        self.alloc_tensor_f32(shape)
    }

    // ------------------------------------------------------- host mapping ---

    /// Maps a buffer for the host as elements of `size` bytes. `host_address`
    /// is where the host sees the first byte.
    pub fn map_host(&mut self, buf: &GpuBuffer, host_address: usize, size: usize, align: usize) -> (r:
        Result<HostMapping, String>)
        requires
            old(self).inv(),
            size > 0,
            align > 0,
            buf@.runtime == old(self)@.id,
        ensures
            final(self).inv(),
            ({
                let fits = buf@.nbytes % size == 0 && host_address % align == 0;
                let problem = crate::text::first(
                    crate::text::unless(fits, "host mapping size/alignment mismatch"@),
                    old(self)@.access_problem(),
                );
                &&& reports(r, problem)
                &&& r matches Ok(m) ==> m@ == (MappingView { buffer: buf@, len: (buf@.nbytes / size) as usize })
                &&& final(self)@ == if r is Ok {
                    RuntimeState { busy: true, ..old(self)@ }.committed(true)
                } else {
                    old(self)@
                }
            }),
    {
        if buf.nbytes() % size != 0 || host_address % align != 0 {
            return Err(owned("host mapping size/alignment mismatch"));
        }
        match self.host_access() {
            Err(e) => Err(e),
            Ok(()) => Ok(HostMapping { buffer: buf.at(), len: buf.nbytes() / size }),
        }
    }

    /// Ends a host mapping. Another runtime's leaves this one alone.
    pub fn unmap_host(&mut self, mapping: HostMapping)
        requires
            old(self).inv(),
        ensures
            final(self).inv(),
            final(self)@ == if mapping@.buffer.runtime == old(self)@.id {
                RuntimeState { busy: false, ..old(self)@ }
            } else {
                old(self)@
            },
    {
        if mapping.buffer.runtime == self.id {
            self.release_access();
        }
    }

    // ----------------------------------------------------------- settings ---

    /// Serial number of the runtime.
    pub fn id(&self) -> (r: u64)
        ensures
            r == self@.id,
    {
        self.id
    }

    /// The primary library holds the TensorOps kernels.
    pub fn has_tensorops(&self) -> (r: bool)
        ensures
            r == has_tensorops_of(self@.kernels),
    {
        find_kernel(&self.kernels, "matmul2d_tensorops_f32", Some(false)).is_some()
    }

    /// Chooses the precision mode.
    pub fn set_precision(&mut self, mode: PrecisionMode)
        requires
            old(self).inv(),
        ensures
            final(self).inv(),
            final(self)@ == (RuntimeState {
                settings: Settings { precision: mode, ..old(self)@.settings },
                ..old(self)@
            }),
    {
        self.settings.precision = mode;
    }

    /// The precision mode.
    pub fn precision(&self) -> (r: PrecisionMode)
        ensures
            r == self@.settings.precision,
    {
        self.settings.precision
    }

    /// Opts into relaxed-precision f32 GEMMs.
    pub fn set_relaxed_precision(&mut self, on: bool)
        requires
            old(self).inv(),
        ensures
            final(self).inv(),
            final(self)@ == (RuntimeState {
                settings: Settings { relaxed_precision: on, ..old(self)@.settings },
                ..old(self)@
            }),
    {
        self.settings.relaxed_precision = on;
    }

    /// Relaxed-precision f32 GEMMs are chosen.
    pub fn relaxed_precision(&self) -> (r: bool)
        ensures
            r == self@.settings.relaxed_precision,
    {
        self.settings.relaxed_precision
    }

    /// Prefers the TensorOps flash probe.
    pub fn set_flash_tensorops(&mut self, on: bool)
        requires
            old(self).inv(),
        ensures
            final(self).inv(),
            final(self)@ == (RuntimeState {
                settings: Settings { flash_tensorops: on, ..old(self)@.settings },
                ..old(self)@
            }),
    {
        self.settings.flash_tensorops = on;
    }

    /// The TensorOps flash probe is preferred.
    pub fn flash_tensorops(&self) -> (r: bool)
        ensures
            r == self@.settings.flash_tensorops,
    {
        self.settings.flash_tensorops
    }

    /// The memory budget.
    pub fn memory_info(&self) -> (r: DeviceMemoryInfo)
        ensures
            r == self@.memory,
    {
        self.memory
    }

    /// Caps the bytes of cached slabs, trimming to the cap.
    pub fn set_pool_cache_cap_bytes(&mut self, bytes: usize)
        requires
            old(self).inv(),
        ensures
            final(self).inv(),
            final(self)@ == (RuntimeState {
                memory: DeviceMemoryInfo { pool_cache_cap: bytes, ..old(self)@.memory },
                pool: old(self)@.pool.capped(bytes as int),
                ..old(self)@.with_ops(let_go_ops(shed(old(self)@.pool.free, bytes as int)))
            }),
    {
        self.memory.pool_cache_cap = bytes;
        proof {
            lemma_capped(
                self@.pool.free,
                self@.pending,
                self@.held,
                self@.serials.slab,
                bytes as int,
            );
        }
        let gone = self.pool.set_max_cache_bytes(bytes);
        let mut ops: Vec<DeviceOp> = Vec::new();
        std::mem::swap(&mut ops, &mut self.ops);
        let ghost before = ops@;
        let mut i: usize = 0;
        assert(ops@ =~= before + let_go_ops(gone@.take(0)));
        while i < gone.len()
            invariant
                i <= gone@.len(),
                ops@ == before + let_go_ops(gone@.take(i as int)),
            decreases gone@.len() - i,
        {
            ops.push(DeviceOp::DropBuffer { slab: gone[i].id });
            assert(ops@ =~= before + let_go_ops(gone@.take(i + 1)));
            i += 1;
        }
        self.ops = ops;
        assert(gone@.take(i as int) =~= gone@);
    }

    /// Records the wired budget, which the caller derives from the working set.
    pub fn set_wired_budget(&mut self, bytes: u64)
        requires
            old(self).inv(),
        ensures
            final(self).inv(),
            final(self)@ == (RuntimeState {
                memory: DeviceMemoryInfo { wired_budget: bytes, ..old(self)@.memory },
                ..old(self)@
            }),
    {
        self.memory.wired_budget = bytes;
    }

    /// Records the two timestamps the device resolved.
    pub fn record_stamps(&mut self, t0: u64, t1: u64)
        requires
            old(self).inv(),
        ensures
            final(self).inv(),
            final(self)@ == (RuntimeState { stamps: Some((t0, t1)), ..old(self)@ }),
    {
        self.stamps = Some((t0, t1));
    }

    /// The timestamps of the last synchronization, once.
    pub fn take_metal4_stamps(&mut self) -> (r: Option<(u64, u64)>)
        requires
            old(self).inv(),
        ensures
            final(self).inv(),
            r == old(self)@.stamps,
            final(self)@ == (RuntimeState { stamps: None, ..old(self)@ }),
    {
        self.stamps.take()
    }

    /// Command buffers carry timestamps.
    pub fn metal4_counter_heap_available(&self) -> (r: bool)
        ensures
            r == self@.info.counter_heap,
    {
        self.info.counter_heap
    }

    /// Dynamic threadgroup memory the device allows.
    pub fn max_threadgroup_memory(&self) -> (r: usize)
        ensures
            r == self@.info.max_threadgroup_memory,
    {
        self.info.max_threadgroup_memory
    }

    /// Dispatches accumulate into one command buffer.
    pub fn async_encode_enabled(&self) -> (r: bool)
        ensures
            r == self@.async_encode,
    {
        self.async_encode
    }

    /// Scopes encoded since the last call.
    pub fn take_dispatch_count(&mut self) -> (r: usize)
        requires
            old(self).inv(),
        ensures
            final(self).inv(),
            r == old(self)@.dispatch_count,
            final(self)@ == (RuntimeState { dispatch_count: 0, ..old(self)@ }),
    {
        let n: usize = self.dispatch_count;
        self.dispatch_count = 0;
        n
    }

    /// First free byte of the constant arena.
    pub fn const_cursor(&self) -> (r: usize)
        ensures
            r == self@.cursor,
    {
        self.cursor
    }

    /// Hands over the device operations asked for since the last call, with the
    /// byte payloads they name.
    pub fn take_ops(&mut self) -> (r: (Vec<DeviceOp>, Vec<u8>))
        requires
            old(self).inv(),
        ensures
            final(self).inv(),
            r.0@ == old(self)@.ops,
            r.1@ == old(self)@.blob,
            final(self)@ == (RuntimeState {
                ops: Seq::empty(),
                blob: Seq::empty(),
                ..old(self)@
            }),
    {
        let mut ops: Vec<DeviceOp> = Vec::new();
        std::mem::swap(&mut ops, &mut self.ops);
        let mut blob: Vec<u8> = Vec::new();
        std::mem::swap(&mut blob, &mut self.blob);
        proof {
            assert(self@.ops =~= Seq::empty());
            assert(self@.blob =~= Seq::empty());
            lemma_wf_frame(old(self)@, self@);
        }
        (ops, blob)
    }

    // ------------------------------------------- indirect command buffers ---

    /// Notes an operation.
    pub(crate) fn note_op(&mut self, op: DeviceOp)
        requires
            old(self).inv(),
        ensures
            final(self).inv(),
            final(self)@ == old(self)@.with_op(op),
    {
        self.ops.push(op);
    }

    /// Has the host write bytes to the start of a slab.
    pub(crate) fn host_write(&mut self, slab: u64, bytes: &[u8])
        requires
            old(self).inv(),
        ensures
            final(self).inv(),
            final(self)@ == old(self)@.host_written(slab, bytes@),
    {
        let from: usize = self.blob.len();
        let mut copy = copy_bytes(bytes);
        self.blob.append(&mut copy);
        self.ops.push(DeviceOp::HostWrite { slab, from, len: bytes.len() });
        assert(self@ =~= old(self)@.host_written(slab, bytes@));
    }

    /// Makes an indirect command buffer and puts it in the residency set.
    pub(crate) fn create_icb(&mut self, freeze: bool, capacity: usize) -> (r: Option<u64>)
        requires
            old(self).inv(),
        ensures
            final(self).inv(),
            (final(self)@, r) == old(self)@.icb_created(freeze, capacity),
    {
        let icb: u64 = self.serials.icb;
        if icb == u64::MAX {
            return None;
        }
        self.serials.icb = icb + 1;
        self.ops.push(DeviceOp::CreateIcb { icb, freeze, capacity });
        self.ops.push(DeviceOp::AddIcbResidency { icb });
        self.residency = Residency { count: incr(self.residency.count), dirty: true };
        assert(self@ =~= old(self)@.icb_created(freeze, capacity).0);
        Some(icb)
    }

    /// Makes an argument table.
    pub(crate) fn create_table(&mut self) -> (r: Option<u64>)
        requires
            old(self).inv(),
        ensures
            final(self).inv(),
            (final(self)@, r) == old(self)@.table_created(),
    {
        let table: u64 = self.serials.table;
        if table == u64::MAX {
            return None;
        }
        self.serials.table = table + 1;
        self.ops.push(DeviceOp::CreateTable { table });
        assert(self@ =~= old(self)@.table_created().0);
        Some(table)
    }

    /// Builds a kernel for use from an indirect command buffer. Overlay
    /// libraries are searched before the primary one.
    pub(crate) fn build_icb_pipeline(&mut self, name: &str) -> (r: Result<Pipeline, String>)
        requires
            old(self).inv(),
        ensures
            final(self).inv(),
            final(self)@ == old(self)@.icb_piped(name@).0,
            outcome(r, old(self)@.icb_piped(name@).1),
    {
        let found = match find_kernel(&self.kernels, name, Some(true)) {
            Some(i) => Some(i),
            None => find_kernel(&self.kernels, name, Some(false)),
        };
        match found {
            None => Err(
                Msg::new("ICB MTL4 pipeline '").text(name).text("': function not found").done(),
            ),
            Some(at) => {
                if !self.kernels[at].icb_capable {
                    return Err(
                        Msg::new("ICB pipeline '").text(name).text(
                            "' supportIndirectCommandBuffers=false",
                        ).done(),
                    );
                }
                self.ops.push(DeviceOp::BuildPipeline { kernel: at, indirect: true });
                Ok(
                    Pipeline {
                        kernel: at,
                        icb: true,
                        thread_execution_width: self.kernels[at].thread_execution_width,
                        max_threads: self.kernels[at].max_threads,
                    },
                )
            },
        }
    }

    // --------------------------------------------------------- components ---

    /// The A/B flags.
    pub fn ab_flags(&mut self) -> (r: &mut AbFlags)
        requires
            old(self).inv(),
        ensures
            *r == old(self)@.ab,
            final(self)@ == (RuntimeState { ab: *final(r), ..old(self)@ }),
            final(self).inv(),
    {
        &mut self.ab
    }

    /// The replay flags.
    pub fn icb_flags(&mut self) -> (r: &mut IcbFlags)
        requires
            old(self).inv(),
        ensures
            *r == old(self)@.icb,
            final(self)@ == (RuntimeState { icb: *final(r), ..old(self)@ }),
            final(self).inv(),
    {
        &mut self.icb
    }

    /// Reads the freeze-binds flag.
    pub(crate) fn read_icb_freeze_binds(&mut self) -> (r: bool)
        requires
            old(self).inv(),
        ensures
            final(self).inv(),
            r == old(self)@.icb.freeze_binds_value(old(self)@.ab.env),
            final(self)@ == (RuntimeState {
                icb: IcbFlags { freeze_binds: Some(r), ..old(self)@.icb },
                ..old(self)@
            }),
    {
        icb_freeze_binds_enabled(&mut self.icb, &self.ab.env)
    }

    /// Reads the range-batch flag.
    pub(crate) fn read_icb_range_batch(&mut self) -> (r: bool)
        requires
            old(self).inv(),
        ensures
            final(self).inv(),
            r == old(self)@.icb.range_batch_value(old(self)@.ab.env),
            final(self)@ == (RuntimeState {
                icb: IcbFlags { range_batch: Some(r), ..old(self)@.icb },
                ..old(self)@
            }),
    {
        icb_range_batch_enabled(&mut self.icb, &self.ab.env)
    }

    /// Reads the coarse-ranges flag.
    pub(crate) fn read_icb_coarse_ranges(&mut self) -> (r: bool)
        requires
            old(self).inv(),
        ensures
            final(self).inv(),
            r == old(self)@.icb.coarse_ranges_value(old(self)@.ab.env),
            final(self)@ == (RuntimeState {
                icb: old(self)@.icb.with_coarse_ranges_read(old(self)@.ab.env),
                ..old(self)@
            }),
    {
        icb_coarse_ranges_enabled(&mut self.icb, &self.ab.env)
    }

    /// Reads the replay flag.
    pub(crate) fn read_decode_icb(&mut self) -> (r: bool)
        requires
            old(self).inv(),
        ensures
            final(self).inv(),
            r == old(self)@.icb.decode_icb_value(old(self)@.ab.env),
            final(self)@ == (RuntimeState {
                icb: IcbFlags { decode_icb: Some(r), ..old(self)@.icb },
                ..old(self)@
            }),
    {
        decode_icb_enabled(&mut self.icb, &self.ab.env)
    }

    /// The environment snapshot.
    pub fn env(&self) -> (r: &Env)
        ensures
            *r == self@.ab.env,
    {
        &self.ab.env
    }

    /// The counters.
    pub fn infer_trace(&mut self) -> (r: &mut InferTrace)
        requires
            old(self).inv(),
        ensures
            *r == old(self)@.trace,
            final(self)@ == (RuntimeState { trace: *final(r), ..old(self)@ }),
            final(self).inv(),
    {
        &mut self.trace
    }

    /// Starts or replaces the recording.
    pub(crate) fn begin_capture(&mut self)
        requires
            old(self).inv(),
        ensures
            final(self).inv(),
            final(self)@ == old(self)@.capture_begun(),
    {
        let before = self.capture.take();
        let ghost s = self@;
        match before {
            Some(c) => {
                let (commands, hold) = c.into_commands();
                self.let_go(hold);
            },
            None => {},
        }
        self.capture = Some(DecodeIcbCapture::new());
        assert(self@ =~= old(self)@.capture_begun());
    }

    /// Ends the recording.
    pub fn take_capture(&mut self) -> (r: Option<DecodeIcbCapture>)
        requires
            old(self).inv(),
        ensures
            final(self).inv(),
            capture_of(r) == old(self)@.capture,
            final(self)@ == (RuntimeState { capture: None, ..old(self)@ }),
    {
        self.capture.take()
    }

    /// A recording is in progress.
    pub fn capture_active(&self) -> (r: bool)
        ensures
            r == (self@.capture is Some),
    {
        self.capture.is_some()
    }
}

/// A slab that is granted is none of the arenas'.
proof fn lemma_new_arena(s: RuntimeState, capacity: usize)
    requires
        s.wf(),
        s.allocated(capacity, BufferKind::Bump).1 is Ok,
    ensures
        ({
            let (t, r) = s.allocated(capacity, BufferKind::Bump);
            arenas_apart(Some(r->Ok_0.slab.id), t.outgoing())
        }),
{
    law_granted_slabs_have_one_handle(s, capacity, BufferKind::Bump);
    lemma_allocated_frame(s, capacity, BufferKind::Bump);
    reveal(arenas_apart);
}

/// The arenas that are left without a slab are in order where its handles are gone.
proof fn lemma_dropped_arenas(s: RuntimeState, id: u64)
    requires
        s.wf(),
    ensures
        ({
            let (bump, rest) = s.arenas_without(id);
            let t = RuntimeState { bump, replaced: rest, held: s.held.remove(id), ..s };
            &&& bump is Some ==> t.arena_wf(bump->0)
            &&& forall|i: int| 0 <= i < rest.len() ==> t.arena_wf(#[trigger] rest[i])
            &&& arenas_apart(t.bump_slab(), rest)
        }),
{
    let (bump, rest) = s.arenas_without(id);
    let t = RuntimeState { bump, replaced: rest, held: s.held.remove(id), ..s };
    let off = arenas_off(s.replaced, id);
    let from = lemma_arenas_off(s.replaced, id);
    assert forall|i: int| 0 <= i < off.len() implies t.arena_wf(#[trigger] off[i]) by {
        assert(0 <= from(i) < s.replaced.len());
        assert(s.arena_wf(s.replaced[from(i)]));
    }
    reveal(arenas_apart);
    assert forall|i: int, j: int| 0 <= i < j < off.len() implies (#[trigger] off[i]).buffer.slab.id
        != (#[trigger] off[j]).buffer.slab.id by {
        assert(from(i) < from(j));
        assert(s.replaced[from(i)].buffer.slab.id != s.replaced[from(j)].buffer.slab.id);
    }
    assert forall|i: int| 0 <= i < off.len() implies Some((#[trigger] off[i]).buffer.slab.id)
        != s.bump_slab() by {
        assert(0 <= from(i) < s.replaced.len());
        assert(Some(s.replaced[from(i)].buffer.slab.id) != s.bump_slab());
    }
}

/// Where the last arena on slab `id` is.
fn find_arena(arenas: &Vec<BumpState>, id: u64) -> (r: Option<usize>)
    ensures
        match r {
            Some(i) => i < arenas@.len() && i == arena_at(arenas@, id, arenas@.len() as int),
            None => arena_at(arenas@, id, arenas@.len() as int) == -1,
        },
{
    let mut i: usize = arenas.len();
    while i > 0
        invariant
            i <= arenas@.len(),
            arena_at(arenas@, id, i as int) == arena_at(arenas@, id, arenas@.len() as int),
        decreases i,
    {
        i -= 1;
        if arenas[i].buffer.slab.id == id {
            return Some(i);
        }
    }
    None
}

/// The primary library holds the TensorOps kernels.
pub open spec fn has_tensorops_of(kernels: Seq<Kernel>) -> bool {
    kernel_from(kernels, "matmul2d_tensorops_f32"@, Some(false), 0) >= 0
}

/// A scope in state `mid` closed with binder `b` and callback outcome `out`.
pub open spec fn closed_with(
    mid: RuntimeState,
    b: BinderState,
    out: Result<(), String>,
    after: RuntimeState,
    r: Result<(), String>,
) -> bool {
    let (s, problem) = mid.unscoped(
        b,
        match out {
            Ok(_) => None,
            Err(e) => Some(e@),
        },
    );
    after == s && reports(r, problem)
}

fn find_kernel(kernels: &Vec<Kernel>, name: &str, overlay: Option<bool>) -> (r: Option<usize>)
    ensures
        match r {
            Some(i) => i < kernels@.len() && i == kernel_from(kernels@, name@, overlay, 0),
            None => kernel_from(kernels@, name@, overlay, 0) == -1,
        },
{
    let mut i: usize = 0;
    while i < kernels.len()
        invariant
            i <= kernels@.len(),
            kernel_from(kernels@, name@, overlay, 0) == kernel_from(kernels@, name@, overlay, i as int),
        decreases kernels@.len() - i,
    {
        let wanted = match overlay {
            None => true,
            Some(o) => o == (kernels[i].library > 0),
        };
        if same_text(kernels[i].name.as_str(), name) && wanted {
            return Some(i);
        }
        i += 1;
    }
    None
}

fn contains_pipeline(built: &Vec<Pipeline>, p: &Pipeline) -> (r: bool)
    ensures
        r == built@.contains(*p),
{
    let mut i: usize = 0;
    while i < built.len()
        invariant
            i <= built@.len(),
            forall|k: int| 0 <= k < i ==> built@[k] != *p,
        decreases built@.len() - i,
    {
        if built[i] == *p {
            assert(built@[i as int] == *p);
            return true;
        }
        i += 1;
    }
    false
}

/// Fields that a drain leaves alone.
proof fn lemma_drained_frame(s: RuntimeState, n: int)
    ensures
        s.drained_to(n) == (RuntimeState {
            ops: s.drained_to(n).ops,
            residency: s.drained_to(n).residency,
            pool: s.drained_to(n).pool,
            ..s
        }),
    decreases n,
{
    if n > 0 {
        lemma_drained_frame(s, n - 1);
    }
}

/// Well-formedness looks at the pool, the retired slabs, the bump arena, the
/// batch, the allocators and the constant cursor alone.
pub proof fn lemma_wf_frame(s: RuntimeState, t: RuntimeState)
    requires
        s.wf(),
        t.id == s.id,
        t.pool == s.pool,
        t.pending == s.pending,
        t.held == s.held,
        t.serials == s.serials,
        t.bump == s.bump,
        t.replaced == s.replaced,
        t.batch == s.batch,
        t.cursor == s.cursor,
        t.allocators == s.allocators,
    ensures
        t.wf(),
{
}

pub(crate) proof fn lemma_drained_whole_frame(s: RuntimeState)
    ensures
        s.drained() == (RuntimeState {
            ops: s.drained().ops,
            residency: s.drained().residency,
            pool: s.drained().pool,
            pending: s.drained().pending,
            trace: s.drained().trace,
            ..s
        }),
        s.drained().pending.len() == 0,
{
    reveal(RuntimeState::drained);
    lemma_drained_frame(s, s.pending.len() as int);
}

proof fn lemma_caught_up_frame(s: RuntimeState)
    ensures
        s.caught_up() == (RuntimeState {
            ops: s.caught_up().ops,
            allocators: s.caught_up().allocators,
            ..s
        }),
{
}

proof fn lemma_submitted_frame(s: RuntimeState, b: ActiveBatch, stamp: bool)
    ensures
        s.submitted(b, stamp) == (RuntimeState {
            ops: s.submitted(b, stamp).ops,
            trace: s.submitted(b, stamp).trace,
            allocators: s.submitted(b, stamp).allocators,
            batch: Some(ActiveBatch { cb_open: false, since_commit: 0, encoder: false, ..b }),
            ..s
        }),
{
}

proof fn lemma_settled_frame(s: RuntimeState, stamp: bool)
    ensures
        s.settled(stamp) == (RuntimeState {
            ops: s.settled(stamp).ops,
            allocators: s.settled(stamp).allocators,
            cursor: 0,
            batch: None,
            ..s
        }),
{
}

/// Fields that a commit leaves alone, and what a waiting one leaves behind: no
/// batch, no retired slab, an empty constant arena.
pub proof fn lemma_committed_frame(s: RuntimeState, wait: bool)
    ensures
        s.committed(wait) == (RuntimeState {
            ops: s.committed(wait).ops,
            residency: s.committed(wait).residency,
            pool: s.committed(wait).pool,
            pending: s.committed(wait).pending,
            trace: s.committed(wait).trace,
            allocators: s.committed(wait).allocators,
            cursor: s.committed(wait).cursor,
            batch: s.committed(wait).batch,
            ..s
        }),
        !wait ==> s.committed(wait).pending == s.pending && s.committed(wait).pool == s.pool
            && s.committed(wait).cursor == s.cursor && (s.batch is Some ==> s.committed(
            wait,
        ).batch is Some),
        wait ==> s.committed(wait).batch is None && s.committed(wait).pending.len() == 0,
        wait && (s.batch is None ==> s.cursor == 0) ==> s.committed(wait).cursor == 0,
{
    reveal(RuntimeState::committed);
    match s.batch {
        None => {
            lemma_drained_whole_frame(s);
        },
        Some(b) => {
            let stamp = wait && b.stamped_t0;
            if !b.cb_open {
                lemma_caught_up_frame(s);
                lemma_drained_whole_frame(RuntimeState { batch: None, cursor: 0, ..s.caught_up() });
            } else {
                let w = s.submitted(b, stamp);
                lemma_submitted_frame(s, b, stamp);
                lemma_settled_frame(w, stamp);
                lemma_drained_whole_frame(w.settled(stamp));
            }
        },
    }
}

/// Fields that another handle, or one less, leaves alone.
pub proof fn lemma_handles_frame(s: RuntimeState, b: Storage)
    ensures
        s.shared(b) == (RuntimeState { held: s.shared(b).held, ..s }),
        s.retired(b) == (RuntimeState {
            held: s.retired(b).held,
            pending: s.retired(b).pending,
            ..s
        }),
{
    reveal(RuntimeState::shared);
    reveal(RuntimeState::retired);
}

/// Fields that the handles of a tape leave alone.
pub proof fn lemma_taken_frame(s: RuntimeState, all: Seq<Storage>, n: int)
    ensures
        s.taken(all, n).0 == (RuntimeState { held: s.taken(all, n).0.held, ..s }),
    decreases n,
{
    if n > 0 {
        lemma_taken_frame(s, all, n - 1);
        lemma_handles_frame(s.taken(all, n - 1).0, all[n - 1]);
    }
}

/// Fields that a recording leaves alone when it comes back from a scope.
pub proof fn lemma_recording_frame(s: RuntimeState, capture: Option<CaptureView>)
    ensures
        s.with_recording(capture) == (RuntimeState {
            held: s.with_recording(capture).held,
            capture: s.with_recording(capture).capture,
            ..s
        }),
        capture is None ==> s.with_recording(capture).held == s.held,
{
    match capture {
        None => {},
        Some(c) => {
            lemma_taken_frame(s, c.fresh, c.fresh.len() as int);
        },
    }
}

/// Fields that an allocation leaves alone.
pub proof fn lemma_allocated_frame(s: RuntimeState, nbytes: usize, kind: BufferKind)
    ensures
        s.allocated(nbytes, kind).0 == (RuntimeState {
            ops: s.allocated(nbytes, kind).0.ops,
            residency: s.allocated(nbytes, kind).0.residency,
            pool: s.allocated(nbytes, kind).0.pool,
            held: s.allocated(nbytes, kind).0.held,
            trace: s.allocated(nbytes, kind).0.trace,
            serials: s.allocated(nbytes, kind).0.serials,
            ..s
        }),
{
    reveal(RuntimeState::allocated);
}

proof fn lemma_drained_pending(s: RuntimeState, n: int)
    ensures
        s.drained_to(n).pending == s.pending,
    decreases n,
{
    if n > 0 {
        lemma_drained_pending(s, n - 1);
    }
}

} // verus!
