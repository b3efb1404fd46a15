//! Bind + dispatch: the [`Binder`] turns binds and dispatches into device
//! operations over an argument table and a constant arena. The first failure
//! sticks and silences everything after it.

use vstd::prelude::*;

use crate::bytes::word_bytes;
use crate::capture::{buf_address, BindView, CaptureView, DecodeIcbCapture};
use crate::device::{
    lanes, mtl_size, size3, DeviceOp, MtlSize, Pipeline, ARGUMENT_TABLE_MAX_BUFFERS,
    METAL4_CONST_ARENA_BYTES, PERSISTENT_TABLE,
};
use crate::infer_trace::{on_barrier, on_dispatch, InferTrace, TraceEvent};
use crate::runtime::{closed_with, GpuRuntime};
use crate::sizes::{ceil_div, div_ceil, least, max_usize, min_usize, most};
use crate::state::RuntimeState;
use crate::tensor::{GpuBuffer, Slab, Storage, Tensor};
use crate::text::{owned, reports, unless};

verus! {

/// The next multiple of 16.
pub open spec fn align16(n: int) -> int {
    (n + 15) / 16 * 16
}

/// `bytes`, zero-padded to at least one word.
pub open spec fn padded(bytes: Seq<u8>) -> Seq<u8> {
    if bytes.len() >= 4 {
        bytes
    } else {
        bytes + Seq::new((4 - bytes.len()) as nat, |i: int| 0u8)
    }
}

/// A dispatch the device accepts: a lane count the pipeline admits, and at
/// least one group on every side.
pub open spec fn geometry_ok(groups: MtlSize, threads: MtlSize, max_threads: Option<usize>) -> bool {
    &&& max_threads is Some
    &&& 0 < lanes(threads) <= max_threads->0
    &&& 0 < groups.width <= u32::MAX
    &&& 0 < groups.height <= u32::MAX
    &&& 0 < groups.depth <= u32::MAX
}

/// Message of a refused geometry.
pub open spec fn geometry_message() -> Seq<char> {
    "invalid dispatch geometry or missing pipeline"@
}

/// A binder as data.
#[verifier::ext_equal]
pub struct BinderState {
    pub runtime: u64,
    pub error: Option<Seq<char>>,
    /// Lane limit of the pipeline in force.
    pub max_threads: Option<usize>,
    /// Device address of the constant arena.
    pub arena: u64,
    /// First free byte of the arena.
    pub cursor: int,
    /// Some argument table is in force.
    pub latched: bool,
    pub table: Option<u64>,
    /// Dispatches are not followed by a barrier.
    pub skip_auto: bool,
    pub ops: Seq<DeviceOp>,
    pub blob: Seq<u8>,
    pub trace: InferTrace,
    pub capture: Option<CaptureView>,
}

impl BinderState {
    /// After a failure: the first one is kept.
    pub open spec fn failed(self, message: Seq<char>) -> BinderState {
        match self.error {
            Some(_) => self,
            None => BinderState { error: Some(message), ..self },
        }
    }

    /// After a slot number was checked.
    pub open spec fn indexed(self, index: usize) -> BinderState {
        if index >= ARGUMENT_TABLE_MAX_BUFFERS {
            self.failed("argument-table buffer index out of range"@)
        } else {
            self
        }
    }

    /// With one more operation.
    pub open spec fn with_op(self, op: DeviceOp) -> BinderState {
        BinderState { ops: self.ops.push(op), ..self }
    }

    /// With the recording changed, where there is one.
    pub open spec fn recorded(self, note: spec_fn(CaptureView) -> CaptureView) -> BinderState {
        match self.capture {
            None => self,
            Some(c) => BinderState { capture: Some(note(c)), ..self },
        }
    }

    /// After constant bytes went to the arena, with their device address: at the
    /// next multiple of 16, zero-padded to a word.
    pub open spec fn written(self, bytes: Seq<u8>) -> (BinderState, u64) {
        let start = align16(self.cursor);
        let end = start + most(bytes.len() as int, 4);
        if self.error is Some {
            (self, 0)
        } else if self.cursor + 15 > usize::MAX || end > usize::MAX {
            (self.failed("constant arena offset overflow"@), 0)
        } else if bytes.len() == 0 || end > METAL4_CONST_ARENA_BYTES {
            (self.failed("constant arena exhausted or empty payload"@), 0)
        } else {
            (
                BinderState {
                    cursor: end,
                    blob: self.blob + padded(bytes),
                    ..self.with_op(
                        DeviceOp::WriteConst {
                            offset: start as usize,
                            from: self.blob.len() as usize,
                            len: padded(bytes).len() as usize,
                        },
                    )
                },
                ((self.arena + start) % 0x1_0000_0000_0000_0000) as u64,
            )
        }
    }

    /// After an address was put in a slot.
    pub open spec fn bound_address(self, address: u64, index: usize) -> BinderState {
        let s = self.indexed(index);
        if s.error is Some {
            s
        } else if address == 0 {
            s.failed("null GPU address"@)
        } else {
            s.with_op(DeviceOp::SetAddress { index, address })
        }
    }

    /// After byte `offset` of a slab was put in a slot.
    pub open spec fn bound_slab(self, slab: Slab, offset: usize, index: usize) -> BinderState {
        let s = self.indexed(index);
        if s.error is Some {
            s
        } else if offset >= slab.length {
            s.failed("buffer binding offset out of bounds"@)
        } else if slab.address + offset > u64::MAX {
            s.failed("GPU address overflow"@)
        } else {
            s.bound_address((slab.address + offset) as u64, index)
        }
    }

    /// The slab bind is in range, so that a recording has to note it.
    pub open spec fn reaches(self, slab: Slab, offset: usize, index: usize) -> bool {
        &&& self.indexed(index).error is None
        &&& offset < slab.length
        &&& slab.address + offset <= u64::MAX
    }

    /// After a bind of bare storage, which a recording cannot hold.
    pub open spec fn bound_bare(self, slab: Slab, offset: usize, index: usize) -> BinderState {
        if self.reaches(slab, offset, index) {
            self.recorded(|c: CaptureView| c.noted_unrecordable()).bound_slab(slab, offset, index)
        } else {
            self.bound_slab(slab, offset, index)
        }
    }

    /// After a recordable bind of `buf` at `offset`.
    pub open spec fn bound_at(self, buf: Storage, offset: usize, index: usize) -> BinderState {
        self.bound_slab(buf.slab, offset, index).recorded(
            |c: CaptureView|
                c.noted_bind(
                    BindView::Buf {
                        index,
                        buf,
                        byte_offset: offset,
                        gpu_addr: buf_address(buf, offset),
                    },
                ),
        )
    }

    /// After a buffer of this runtime was bound; another runtime's is refused.
    pub open spec fn bound_buffer(self, buf: Storage, index: usize) -> BinderState {
        if buf.runtime != self.runtime {
            self.failed("buffer belongs to another runtime"@)
        } else {
            self.bound_at(buf, 0, index)
        }
    }

    /// After a tensor was bound: it has to be valid and this runtime's.
    pub open spec fn bound_tensor(self, t: Tensor, index: usize) -> BinderState {
        match t.problem() {
            Some(m) => self.failed(m),
            None => self.bound_view(t.buffer@, t.byte_offset, t.runtime, index),
        }
    }

    /// After a valid view was bound.
    pub open spec fn bound_view(
        self,
        buf: Storage,
        offset: usize,
        runtime: u64,
        index: usize,
    ) -> BinderState {
        if runtime != self.runtime {
            self.failed("tensor belongs to another runtime"@)
        } else {
            self.bound_at(buf, offset, index)
        }
    }

    /// After constant bytes were bound, with their device address.
    pub open spec fn bound_bytes(self, bytes: Seq<u8>, index: usize) -> (BinderState, u64) {
        let s = self.indexed(index);
        if s.error is Some {
            (s, 0)
        } else {
            let (w, address) = s.written(bytes);
            if w.error is Some {
                (w, 0)
            } else {
                (
                    w.bound_address(address, index).recorded(
                        |c: CaptureView| c.noted_bind(BindView::Immediate { index, bytes }),
                    ),
                    address,
                )
            }
        }
    }

    /// After a resource without a buffer was bound, which a recording cannot
    /// hold.
    pub open spec fn bound_resource(self, resource: u64, index: usize) -> BinderState {
        let s = self.indexed(index);
        if s.error is Some {
            s
        } else {
            s.recorded(|c: CaptureView| c.noted_unrecordable()).with_op(
                DeviceOp::SetResource { index, resource },
            )
        }
    }

    /// After a pipeline was set.
    pub open spec fn piped(self, p: Pipeline) -> BinderState {
        if self.error is Some {
            self
        } else {
            BinderState {
                max_threads: Some(p.max_threads),
                ..self.with_op(DeviceOp::SetPipeline { pipeline: p })
            }.recorded(|c: CaptureView| c.noted_pipeline(p))
        }
    }

    /// After threadgroup memory was set.
    pub open spec fn with_tg_mem(self, index: usize, length: usize) -> BinderState {
        let s = self.indexed(index);
        if s.error is Some {
            s
        } else {
            s.with_op(DeviceOp::ThreadgroupMemory { index, length }).recorded(
                |c: CaptureView| c.noted_tg_mem(index, length),
            )
        }
    }

    /// With the runtime's own table in force, unless some table already is.
    pub open spec fn with_table(self) -> BinderState {
        if self.latched {
            self
        } else {
            BinderState {
                latched: true,
                table: Some(PERSISTENT_TABLE),
                ..self.with_op(DeviceOp::UseTable { table: PERSISTENT_TABLE })
            }
        }
    }

    /// With a prebuilt table in force.
    pub open spec fn adopted(self, table: u64) -> BinderState {
        if self.latched && self.table == Some(table) {
            self
        } else {
            BinderState {
                latched: true,
                table: Some(table),
                ..self.with_op(DeviceOp::UseTable { table })
            }
        }
    }

    /// After an unconditional barrier.
    pub open spec fn fenced(self) -> BinderState {
        BinderState {
            trace: self.trace.after(TraceEvent::Barrier),
            ..self.with_op(DeviceOp::Barrier)
        }.recorded(|c: CaptureView| c.noted_barrier())
    }

    /// After an explicit barrier.
    pub open spec fn with_barrier(self) -> BinderState {
        if self.error is Some {
            self
        } else {
            self.fenced()
        }
    }

    /// After a dispatch: refused geometry fails; else the table is in force, the
    /// dispatch is counted and recorded, and a barrier follows unless skipped.
    pub open spec fn dispatched(self, groups: MtlSize, threads: MtlSize) -> BinderState {
        if self.error is Some {
            self
        } else if !geometry_ok(groups, threads, self.max_threads) {
            self.failed(geometry_message())
        } else {
            let s = self.with_table().with_op(DeviceOp::Dispatch { groups, threads });
            let d = BinderState { trace: s.trace.after(TraceEvent::Dispatch), ..s }.recorded(
                |c: CaptureView| c.noted_dispatch(groups, threads),
            );
            if self.skip_auto {
                d
            } else {
                d.fenced()
            }
        }
    }

    /// After a range of an indirect command buffer of `size` commands was run.
    pub open spec fn ran_icb(
        self,
        icb: u64,
        size: usize,
        start: u64,
        count: u64,
        inherit: bool,
    ) -> BinderState {
        if self.error is Some {
            self
        } else if start + count > size {
            self.failed("ICB execute range out of bounds"@)
        } else {
            let t = if inherit {
                self.with_table()
            } else {
                self
            };
            let s = t.with_op(DeviceOp::ExecuteIcb { icb, start, count });
            let d = BinderState { trace: s.trace.after(TraceEvent::Dispatch), ..s };
            if self.skip_auto {
                d
            } else {
                d.fenced()
            }
        }
    }
}

/// Compute binder: argument table + constant arena.
pub struct Binder {
    runtime: u64,
    error: Option<String>,
    max_threads: Option<usize>,
    arena: u64,
    cursor: usize,
    latched: bool,
    table: Option<u64>,
    skip_auto: bool,
    ops: Vec<DeviceOp>,
    blob: Vec<u8>,
    trace: InferTrace,
    capture: Option<DecodeIcbCapture>,
}

/// Text of an optional message.
pub open spec fn text_of(error: Option<String>) -> Option<Seq<char>> {
    match error {
        Some(e) => Some(e@),
        None => None,
    }
}

/// Data of an optional recording.
pub open spec fn capture_of(capture: Option<DecodeIcbCapture>) -> Option<CaptureView> {
    match capture {
        Some(c) => Some(c@),
        None => None,
    }
}

impl View for Binder {
    type V = BinderState;

    closed spec fn view(&self) -> BinderState {
        BinderState {
            runtime: self.runtime,
            error: text_of(self.error),
            max_threads: self.max_threads,
            arena: self.arena,
            cursor: self.cursor as int,
            latched: self.latched,
            table: self.table,
            skip_auto: self.skip_auto,
            ops: self.ops@,
            blob: self.blob@,
            trace: self.trace,
            capture: capture_of(self.capture),
        }
    }
}

/// A fresh binder as data.
pub open spec fn fresh_binder(
    runtime: u64,
    arena: u64,
    cursor: int,
    skip_auto: bool,
    ops: Seq<DeviceOp>,
    blob: Seq<u8>,
    trace: InferTrace,
    capture: Option<CaptureView>,
) -> BinderState {
    BinderState {
        runtime,
        error: None,
        max_threads: None,
        arena,
        cursor,
        latched: false,
        table: None,
        skip_auto,
        ops,
        blob,
        trace,
        capture,
    }
}

/// What a binder hands back when it closes.
pub struct BinderParts {
    pub error: Option<String>,
    pub cursor: usize,
    pub ops: Vec<DeviceOp>,
    pub blob: Vec<u8>,
    pub trace: InferTrace,
    pub capture: Option<DecodeIcbCapture>,
}

impl Binder {
    /// A binder that continues `ops` and `blob` and the arena at `cursor`.
    pub fn new(
        runtime: u64,
        arena: u64,
        cursor: usize,
        skip_auto: bool,
        ops: Vec<DeviceOp>,
        blob: Vec<u8>,
        trace: InferTrace,
        capture: Option<DecodeIcbCapture>,
    ) -> (b: Binder)
        ensures
            b@ == fresh_binder(
                runtime,
                arena,
                cursor as int,
                skip_auto,
                ops@,
                blob@,
                trace,
                capture_of(capture),
            ),
    {
        Binder {
            runtime,
            error: None,
            max_threads: None,
            arena,
            cursor,
            latched: false,
            table: None,
            skip_auto,
            ops,
            blob,
            trace,
            capture,
        }
    }

    /// Takes the binder apart.
    pub fn into_parts(self) -> (p: BinderParts)
        ensures
            text_of(p.error) == self@.error,
            p.cursor == self@.cursor,
            p.ops@ == self@.ops,
            p.blob@ == self@.blob,
            p.trace == self@.trace,
            capture_of(p.capture) == self@.capture,
    {
        BinderParts {
            error: self.error,
            cursor: self.cursor,
            ops: self.ops,
            blob: self.blob,
            trace: self.trace,
            capture: self.capture,
        }
    }

    /// The failure that stuck, if any.
    pub fn finish(&self) -> (r: Result<(), String>)
        ensures
            reports(r, self@.error),
    {
        match &self.error {
            Some(e) => Err(e.clone()),
            None => Ok(()),
        }
    }

    fn fail(&mut self, message: String)
        ensures
            final(self)@ == old(self)@.failed(message@),
    {
        if self.error.is_none() {
            self.error = Some(message);
        }
    }

    fn valid_index(&mut self, index: usize) -> (r: bool)
        ensures
            final(self)@ == old(self)@.indexed(index),
            r == (final(self)@.error is None),
    {
        if index >= ARGUMENT_TABLE_MAX_BUFFERS {
            self.fail(owned("argument-table buffer index out of range"));
        }
        self.error.is_none()
    }

    fn push_op(&mut self, op: DeviceOp)
        ensures
            final(self)@ == old(self)@.with_op(op),
    {
        self.ops.push(op);
    }

    /// Copies bytes into the arena; returns their device address.
    fn write_constants(&mut self, bytes: &[u8]) -> (r: u64)
        ensures
            (final(self)@, r) == old(self)@.written(bytes@),
    {
        if self.error.is_some() {
            return 0;
        }
        let n: usize = bytes.len();
        let room: usize = if n >= 4 {
            n
        } else {
            4
        };
        let start: usize = match self.cursor.checked_add(15) {
            Some(c) => c / 16 * 16,
            None => {
                self.fail(owned("constant arena offset overflow"));
                return 0;
            },
        };
        let end: usize = match start.checked_add(room) {
            Some(e) => e,
            None => {
                self.fail(owned("constant arena offset overflow"));
                return 0;
            },
        };
        if n == 0 || end > METAL4_CONST_ARENA_BYTES {
            self.fail(owned("constant arena exhausted or empty payload"));
            return 0;
        }
        let from: usize = self.blob.len();
        let ghost blob0 = self.blob@;
        let mut i: usize = 0;
        while i < room
            invariant
                i <= room,
                room == padded(bytes@).len(),
                n == bytes@.len(),
                self.blob@ == blob0 + padded(bytes@).take(i as int),
                *self == (Binder { blob: self.blob, ..*old(self) }),
            decreases room - i,
        {
            let b: u8 = if i < n {
                bytes[i]
            } else {
                0
            };
            self.blob.push(b);
            assert(padded(bytes@).take(i + 1) == padded(bytes@).take(i as int).push(b));
            i += 1;
        }
        assert(padded(bytes@).take(room as int) == padded(bytes@));
        self.cursor = end;
        self.ops.push(DeviceOp::WriteConst { offset: start, from, len: room });
        self.arena.wrapping_add(start as u64)
    }

    /// True when this scope skips the barrier after each dispatch, so packed
    /// multi-dispatch operations owe [`Self::barrier`] at their edges.
    pub fn needs_explicit_barriers(&self) -> (r: bool)
        ensures
            r == self@.skip_auto,
    {
        self.skip_auto
    }

    /// Puts the runtime's own table in force, unless some table already is.
    pub fn latch_argument_table(&mut self)
        ensures
            final(self)@ == old(self)@.with_table(),
    {
        if self.latched {
            return;
        }
        self.ops.push(DeviceOp::UseTable { table: PERSISTENT_TABLE });
        self.latched = true;
        self.table = Some(PERSISTENT_TABLE);
    }

    /// Switches to a prebuilt table. Returns `false` when it already is in force.
    pub fn adopt_argument_table(&mut self, table: u64) -> (r: bool)
        ensures
            final(self)@ == old(self)@.adopted(table),
            r == !(old(self)@.latched && old(self)@.table == Some(table)),
    {
        if self.latched {
            if let Some(t) = self.table {
                if t == table {
                    return false;
                }
            }
        }
        self.ops.push(DeviceOp::UseTable { table });
        self.latched = true;
        self.table = Some(table);
        true
    }

    /// Copies bytes into the arena without binding them.
    pub fn materialize_bytes(&mut self, bytes: &[u8]) -> (r: u64)
        ensures
            (final(self)@, r) == old(self)@.written(bytes@),
    {
        self.write_constants(bytes)
    }

    /// Sets a slot of a prebuilt table.
    pub fn set_table_address(&mut self, table: u64, index: usize, address: u64)
        ensures
            final(self)@ == old(self)@.with_op(DeviceOp::SetTableAddress { table, index, address }),
    {
        self.push_op(DeviceOp::SetTableAddress { table, index, address });
    }

    /// Sets the pipeline of the dispatches to come.
    pub fn set_pipeline(&mut self, pipeline: &Pipeline)
        ensures
            final(self)@ == old(self)@.piped(*pipeline),
    {
        if self.error.is_some() {
            return;
        }
        self.max_threads = Some(pipeline.max_threads);
        self.ops.push(DeviceOp::SetPipeline { pipeline: *pipeline });
        match self.capture.take() {
            Some(mut c) => {
                c.note_pipeline(*pipeline);
                self.capture = Some(c);
            },
            None => {},
        }
    }

    fn bind_slab(&mut self, slab: &Slab, offset: usize, index: usize)
        ensures
            final(self)@ == old(self)@.bound_slab(*slab, offset, index),
    {
        if !self.valid_index(index) {
            return;
        }
        if offset >= slab.length {
            self.fail(owned("buffer binding offset out of bounds"));
            return;
        }
        match slab.address.checked_add(offset as u64) {
            Some(address) => self.bind_addr(address, index),
            None => self.fail(owned("GPU address overflow")),
        }
    }

    /// Binds byte `offset` of bare storage. A recording cannot hold it and is
    /// marked incomplete.
    pub fn bind_buf(&mut self, buf: &Slab, offset: usize, index: usize)
        ensures
            final(self)@ == old(self)@.bound_bare(*buf, offset, index),
    {
        let reaches = self.error.is_none() && index < ARGUMENT_TABLE_MAX_BUFFERS && offset
            < buf.length && buf.address.checked_add(offset as u64).is_some();
        if reaches {
            match self.capture.take() {
                Some(mut c) => {
                    c.note_unrecordable();
                    self.capture = Some(c);
                },
                None => {},
            }
        }
        self.bind_slab(buf, offset, index);
    }

    /// Binds a device address.
    pub fn bind_addr(&mut self, gpu_addr: u64, index: usize)
        ensures
            final(self)@ == old(self)@.bound_address(gpu_addr, index),
    {
        if !self.valid_index(index) {
            return;
        }
        if gpu_addr == 0 {
            self.fail(owned("null GPU address"));
            return;
        }
        self.ops.push(DeviceOp::SetAddress { index, address: gpu_addr });
    }

    /// Binds `buf` at a byte offset.
    pub fn bind_gpu_buf_at(&mut self, buf: &GpuBuffer, byte_offset: usize, index: usize)
        ensures
            final(self)@ == old(self)@.bound_at(buf@, byte_offset, index),
    {
        self.bind_storage_at(buf.at(), byte_offset, index);
    }

    fn bind_storage_at(&mut self, buf: Storage, byte_offset: usize, index: usize)
        ensures
            final(self)@ == old(self)@.bound_at(buf, byte_offset, index),
    {
        self.bind_slab(&buf.slab, byte_offset, index);
        match self.capture.take() {
            Some(mut c) => {
                c.note_storage(index, buf, byte_offset);
                self.capture = Some(c);
            },
            None => {},
        }
    }

    /// Binds a tensor's view.
    pub fn bind_tensor(&mut self, t: &Tensor, index: usize)
        ensures
            final(self)@ == old(self)@.bound_tensor(*t, index),
    {
        match t.validate() {
            Err(e) => self.fail(e),
            Ok(()) => self.bind_view(t.buffer.at(), t.byte_offset, t.runtime, index),
        }
    }

    /// Binds a view that was validated before.
    fn bind_view(&mut self, buf: Storage, byte_offset: usize, runtime: u64, index: usize)
        ensures
            final(self)@ == old(self)@.bound_view(buf, byte_offset, runtime, index),
    {
        if runtime != self.runtime {
            self.fail(owned("tensor belongs to another runtime"));
            return;
        }
        self.bind_storage_at(buf, byte_offset, index);
    }

    /// Binds a whole buffer.
    pub fn bind_gpu_buf(&mut self, b: &GpuBuffer, index: usize)
        ensures
            final(self)@ == old(self)@.bound_buffer(b@, index),
    {
        self.bind_storage(b.at(), index);
    }

    fn bind_storage(&mut self, b: Storage, index: usize)
        ensures
            final(self)@ == old(self)@.bound_buffer(b, index),
    {
        if b.runtime != self.runtime {
            self.fail(owned("buffer belongs to another runtime"));
            return;
        }
        self.bind_storage_at(b, 0, index);
    }

    /// Binds a resource that has no buffer; it cannot be recorded.
    pub fn bind_resource_id(&mut self, resource_id: u64, index: usize)
        ensures
            final(self)@ == old(self)@.bound_resource(resource_id, index),
    {
        if !self.valid_index(index) {
            return;
        }
        match self.capture.take() {
            Some(mut c) => {
                c.note_unrecordable();
                self.capture = Some(c);
            },
            None => {},
        }
        self.ops.push(DeviceOp::SetResource { index, resource: resource_id });
    }

    /// Binds constant bytes; returns their device address.
    pub fn bind_bytes(&mut self, bytes: &[u8], index: usize) -> (r: u64)
        ensures
            (final(self)@, r) == old(self)@.bound_bytes(bytes@, index),
    {
        if !self.valid_index(index) {
            return 0;
        }
        let addr: u64 = self.write_constants(bytes);
        if self.error.is_some() {
            return 0;
        }
        self.bind_addr(addr, index);
        match self.capture.take() {
            Some(mut c) => {
                c.note_immediate(index, bytes);
                self.capture = Some(c);
            },
            None => {},
        }
        addr
    }

    /// Binds a word.
    pub fn bind_u32(&mut self, v: u32, index: usize)
        ensures
            final(self)@ == old(self)@.bound_bytes(word_bytes(v), index).0,
    {
        let bytes: [u8; 4] = [
            (v % 0x100) as u8,
            (v / 0x100 % 0x100) as u8,
            (v / 0x1_0000 % 0x100) as u8,
            (v / 0x100_0000) as u8,
        ];
        assert(bytes@ =~= word_bytes(v));
        self.bind_bytes(&bytes, index);
    }

    /// Binds a float, given by its bit pattern.
    pub fn bind_f32(&mut self, bits: u32, index: usize)
        ensures
            final(self)@ == old(self)@.bound_bytes(word_bytes(bits), index).0,
    {
        self.bind_u32(bits, index);
    }

    /// Sets dynamic threadgroup memory.
    pub fn set_threadgroup_memory(&mut self, index: usize, length: usize)
        ensures
            final(self)@ == old(self)@.with_tg_mem(index, length),
    {
        if !self.valid_index(index) {
            return;
        }
        self.ops.push(DeviceOp::ThreadgroupMemory { index, length });
        match self.capture.take() {
            Some(mut c) => {
                c.note_tg_mem(index, length);
                self.capture = Some(c);
            },
            None => {},
        }
    }

    fn fence(&mut self)
        ensures
            final(self)@ == old(self)@.fenced(),
    {
        self.ops.push(DeviceOp::Barrier);
        on_barrier(&mut self.trace);
        match self.capture.take() {
            Some(mut c) => {
                c.note_barrier_after();
                self.capture = Some(c);
            },
            None => {},
        }
    }

    /// Dispatches threadgroups; a barrier follows unless this scope skips it.
    pub fn dispatch(&mut self, threadgroups: MtlSize, threads_per_tg: MtlSize)
        ensures
            final(self)@ == old(self)@.dispatched(threadgroups, threads_per_tg),
    {
        if self.error.is_some() {
            return;
        }
        match validate_dispatch_geometry(threadgroups, threads_per_tg, self.max_threads) {
            Err(e) => {
                self.fail(e);
                return;
            },
            Ok(()) => {},
        }
        self.latch_argument_table();
        self.ops.push(DeviceOp::Dispatch { groups: threadgroups, threads: threads_per_tg });
        on_dispatch(&mut self.trace);
        match self.capture.take() {
            Some(mut c) => {
                c.note_dispatch(threadgroups, threads_per_tg);
                self.capture = Some(c);
            },
            None => {},
        }
        if !self.skip_auto {
            self.fence();
        }
    }

    /// Explicit producer-to-consumer barrier.
    pub fn barrier(&mut self)
        ensures
            final(self)@ == old(self)@.with_barrier(),
    {
        if self.error.is_some() {
            return;
        }
        self.fence();
    }

    /// Runs a range of an indirect command buffer of `size` commands, with the
    /// argument table in force.
    pub fn execute_icb(&mut self, icb: u64, size: usize, start: u64, count: u64)
        ensures
            final(self)@ == old(self)@.ran_icb(icb, size, start, count, true),
    {
        self.execute_icb_ex(icb, size, start, count, true);
    }

    /// [`Self::execute_icb`] with explicit table control.
    pub fn execute_icb_ex(
        &mut self,
        icb: u64,
        size: usize,
        start: u64,
        count: u64,
        inherit_arg_table: bool,
    )
        ensures
            final(self)@ == old(self)@.ran_icb(icb, size, start, count, inherit_arg_table),
    {
        if self.error.is_some() {
            return;
        }
        let inside = match start.checked_add(count) {
            Some(end) => end <= size as u64,
            None => false,
        };
        if !inside {
            self.fail(owned("ICB execute range out of bounds"));
            return;
        }
        if inherit_arg_table {
            self.latch_argument_table();
        }
        self.ops.push(DeviceOp::ExecuteIcb { icb, start, count });
        on_dispatch(&mut self.trace);
        if !self.skip_auto {
            self.fence();
        }
    }

    /// Optimizes a range of an indirect command buffer, once before reuse.
    pub fn optimize_icb(&mut self, icb: u64, start: u64, count: u64)
        ensures
            final(self)@ == old(self)@.with_op(DeviceOp::OptimizeIcb { icb, start, count }),
    {
        self.ops.push(DeviceOp::OptimizeIcb { icb, start, count });
    }
}

/// Checks a dispatch against the pipeline's lane limit and the grid's range.
pub fn validate_dispatch_geometry(
    threadgroups: MtlSize,
    threads_per_tg: MtlSize,
    max_threads: Option<usize>,
) -> (r: Result<(), String>)
    ensures
        reports(
            r,
            unless(geometry_ok(threadgroups, threads_per_tg, max_threads), geometry_message()),
        ),
{
    let max: usize = match max_threads {
        Some(m) => m,
        None => {
            return Err(owned("invalid dispatch geometry or missing pipeline"));
        },
    };
    let w: usize = threads_per_tg.width;
    let h: usize = threads_per_tg.height;
    let d: usize = threads_per_tg.depth;
    let ok = match w.checked_mul(h) {
        None => {
            assert(lanes(threads_per_tg) == 0 || lanes(threads_per_tg) > max) by (nonlinear_arith)
                requires
                    lanes(threads_per_tg) == (w * h) * d,
                    w * h > usize::MAX,
                    max <= usize::MAX,
                    d >= 0,
            ;
            false
        },
        Some(wh) => match wh.checked_mul(d) {
            None => false,
            Some(n) => n > 0 && n <= max,
        },
    };
    let limit: usize = u32::MAX as usize;
    if ok && threadgroups.width > 0 && threadgroups.width <= limit && threadgroups.height > 0
        && threadgroups.height <= limit && threadgroups.depth > 0 && threadgroups.depth <= limit {
        Ok(())
    } else {
        Err(owned("invalid dispatch geometry or missing pipeline"))
    }
}

// ------------------------------------------------------- binds as data -----

/// One bind.
#[derive(Clone, Copy, Debug, PartialEq, Eq, Structural)]
pub enum Bind {
    /// A whole buffer.
    Buffer { buf: Storage, index: usize },
    /// A buffer at a byte offset.
    BufferAt { buf: Storage, byte_offset: usize, index: usize },
    /// Bare storage at a byte offset, which a recording cannot hold.
    Bare { slab: Slab, byte_offset: usize, index: usize },
    /// A validated tensor view.
    View { buf: Storage, byte_offset: usize, runtime: u64, index: usize },
    /// A word.
    U32 { value: u32, index: usize },
    /// A float, by its bit pattern.
    F32 { bits: u32, index: usize },
}

impl BinderState {
    /// After one bind.
    pub open spec fn bound(self, b: Bind) -> BinderState {
        match b {
            Bind::Buffer { buf, index } => self.bound_buffer(buf, index),
            Bind::BufferAt { buf, byte_offset, index } => self.bound_at(buf, byte_offset, index),
            Bind::Bare { slab, byte_offset, index } => self.bound_bare(slab, byte_offset, index),
            Bind::View { buf, byte_offset, runtime, index } => self.bound_view(
                buf,
                byte_offset,
                runtime,
                index,
            ),
            Bind::U32 { value, index } => self.bound_bytes(word_bytes(value), index).0,
            Bind::F32 { bits, index } => self.bound_bytes(word_bytes(bits), index).0,
        }
    }

    /// After the first `n` of `binds`, in order.
    pub open spec fn bound_to(self, binds: Seq<Bind>, n: int) -> BinderState
        decreases n,
    {
        if n <= 0 {
            self
        } else {
            self.bound_to(binds, n - 1).bound(binds[n - 1])
        }
    }

    /// After all of `binds`, in order.
    pub open spec fn bound_all(self, binds: Seq<Bind>) -> BinderState {
        self.bound_to(binds, binds.len() as int)
    }
}

impl Binder {
    /// Makes one bind.
    pub fn bind(&mut self, b: &Bind)
        ensures
            final(self)@ == old(self)@.bound(*b),
    {
        match *b {
            Bind::Buffer { buf, index } => self.bind_storage(buf, index),
            Bind::BufferAt { buf, byte_offset, index } => self.bind_storage_at(
                buf,
                byte_offset,
                index,
            ),
            Bind::Bare { slab, byte_offset, index } => self.bind_buf(&slab, byte_offset, index),
            Bind::View { buf, byte_offset, runtime, index } => self.bind_view(
                buf,
                byte_offset,
                runtime,
                index,
            ),
            Bind::U32 { value, index } => self.bind_u32(value, index),
            Bind::F32 { bits, index } => self.bind_f32(bits, index),
        }
    }

    /// Makes every bind, in order.
    pub fn bind_all(&mut self, binds: &[Bind])
        ensures
            final(self)@ == old(self)@.bound_all(binds@),
    {
        let mut i: usize = 0;
        while i < binds.len()
            invariant
                i <= binds@.len(),
                self@ == old(self)@.bound_to(binds@, i as int),
            decreases binds@.len() - i,
        {
            self.bind(&binds[i]);
            i += 1;
        }
    }
}

/// A valid tensor as a bind.
pub fn tensor_bind(t: &Tensor, index: usize) -> (b: Bind)
    ensures
        b == view_bind(*t, index),
{
    Bind::View { buf: t.buffer.at(), byte_offset: t.byte_offset, runtime: t.runtime, index }
}

/// A valid tensor as a bind.
pub open spec fn view_bind(t: Tensor, index: usize) -> Bind {
    Bind::View { buf: t.buffer@, byte_offset: t.byte_offset, runtime: t.runtime, index }
}

/// Binds a tensor.
pub fn set_tensor(bnd: &mut Binder, t: &Tensor, index: usize)
    ensures
        final(bnd)@ == old(bnd)@.bound_tensor(*t, index),
{
    bnd.bind_tensor(t, index);
}

/// Binds a whole buffer.
pub fn set_gpu_buf(bnd: &mut Binder, buf: &GpuBuffer, index: usize)
    ensures
        final(bnd)@ == old(bnd)@.bound_buffer(buf@, index),
{
    bnd.bind_gpu_buf(buf, index);
}

/// Binds `buf` at a byte offset.
pub fn set_gpu_buf_offset(bnd: &mut Binder, buf: &GpuBuffer, byte_offset: usize, index: usize)
    ensures
        final(bnd)@ == old(bnd)@.bound_at(buf@, byte_offset, index),
{
    bnd.bind_gpu_buf_at(buf, byte_offset, index);
}

/// Binds a word.
pub fn set_u32(bnd: &mut Binder, v: u32, index: usize)
    ensures
        final(bnd)@ == old(bnd)@.bound_bytes(word_bytes(v), index).0,
{
    bnd.bind_u32(v, index);
}

/// Binds a float, given by its bit pattern.
pub fn set_f32(bnd: &mut Binder, bits: u32, index: usize)
    ensures
        final(bnd)@ == old(bnd)@.bound_bytes(word_bytes(bits), index).0,
{
    bnd.bind_f32(bits, index);
}

// ---------------------------------------------------- dispatch helpers -----

/// Lanes per group for `n` threads on a pipeline of this width.
pub open spec fn lanes_for(width: usize, n: usize) -> usize {
    most(least(width as int, n as int), 1) as usize
}

/// Groups of `lanes_for(width, n)` lanes that cover `n` threads.
pub open spec fn groups_for(width: usize, n: usize) -> usize {
    ceil_div(n as int, lanes_for(width, n) as int) as usize
}

fn row_geometry(p: &Pipeline, n: usize) -> (r: (usize, usize))
    requires
        n > 0,
    ensures
        r.0 == groups_for(p.thread_execution_width, n),
        r.1 == lanes_for(p.thread_execution_width, n),
{
    let tpt: usize = max_usize(min_usize(p.thread_execution_width, n), 1);
    (div_ceil(n, tpt), tpt)
}

/// Where a one-dimensional dispatch of `n` threads is refused.
pub open spec fn extent_1d_problem(n: usize) -> Option<Seq<char>> {
    unless(n <= u32::MAX, "1D dispatch exceeds uint indexing"@)
}

/// Where a dispatch over rows and planes is refused.
pub open spec fn extent_problem(nx: usize, ny: usize, nz: usize) -> Option<Seq<char>> {
    unless(
        nx <= u32::MAX && ny <= u32::MAX && nz <= u32::MAX,
        "dispatch extent exceeds uint indexing"@,
    )
}

/// Opens a scope, sets `p`, lets `encode` bind, and dispatches once.
fn dispatch_with<F: FnOnce(&mut Binder)>(
    rt: &mut GpuRuntime,
    p: &Pipeline,
    groups: MtlSize,
    threads: MtlSize,
    encode: F,
) -> (r: Result<(), String>)
    requires
        old(rt).inv(),
        forall|b: &mut Binder| encode.requires((b,)),
    ensures
        final(rt).inv(),
        old(rt)@.icb.encode_nop ==> r is Ok && final(rt)@ == old(rt)@,
        !old(rt)@.icb.encode_nop && old(rt)@.access_problem() is Some ==> final(rt)@ == old(rt)@
            && reports(r, old(rt)@.access_problem()),
        !old(rt)@.icb.encode_nop && old(rt)@.access_problem() is None ==> exists|b: &mut Binder|
            {
                &&& #[trigger] encode.ensures((b,), ())
                &&& (*b)@ == old(rt)@.scoped(None).1.piped(*p)
                &&& closed_with(
                    old(rt)@.scoped(None).0,
                    (*final(b))@.dispatched(groups, threads),
                    Ok(()),
                    final(rt)@,
                    r,
                )
            },
{
    match rt.may_open_scope() {
        Err(e) => {
            return Err(e);
        },
        Ok(live) => {
            if !live {
                return Ok(());
            }
        },
    }
    let mut b = rt.open_scope(None);
    let ghost mid = rt@;
    b.set_pipeline(p);
    let ghost b0 = b@;
    encode(&mut b);
    let ghost b1 = b@;
    b.dispatch(groups, threads);
    let r = rt.close_scope(b, Ok(()));
    proof {
        assert(closed_with(mid, b1.dispatched(groups, threads), Ok(()), rt@, r));
    }
    r
}

/// Dispatches `n` threads with automatic threadgroup sizing. Callers bind `n`
/// as a word, so a count past its range is refused before `encode_bufs` runs.
pub fn dispatch_1d<F: FnOnce(&mut Binder)>(
    rt: &mut GpuRuntime,
    pipeline: &Pipeline,
    n: usize,
    encode_bufs: F,
) -> (r: Result<(), String>)
    requires
        old(rt).inv(),
        forall|b: &mut Binder| encode_bufs.requires((b,)),
    ensures
        final(rt).inv(),
        n == 0 || old(rt)@.icb.encode_nop && n <= u32::MAX ==> r is Ok && final(rt)@ == old(rt)@,
        n > u32::MAX ==> reports(r, extent_1d_problem(n)) && final(rt)@ == old(rt)@,
        0 < n <= u32::MAX && !old(rt)@.icb.encode_nop && old(rt)@.access_problem() is Some ==> {
            &&& final(rt)@ == old(rt)@
            &&& reports(r, old(rt)@.access_problem())
        },
        0 < n <= u32::MAX && !old(rt)@.icb.encode_nop && old(rt)@.access_problem() is None ==> exists|
            b: &mut Binder,
        |
            {
                &&& #[trigger] encode_bufs.ensures((b,), ())
                &&& (*b)@ == old(rt)@.scoped(None).1.piped(*pipeline)
                &&& closed_with(
                    old(rt)@.scoped(None).0,
                    (*final(b))@.dispatched(
                        size3(groups_for(pipeline.thread_execution_width, n), 1, 1),
                        size3(lanes_for(pipeline.thread_execution_width, n), 1, 1),
                    ),
                    Ok(()),
                    final(rt)@,
                    r,
                )
            },
{
    if n == 0 {
        return Ok(());
    }
    if n > u32::MAX as usize {
        return Err(owned("1D dispatch exceeds uint indexing"));
    }
    let (groups, tpt): (usize, usize) = row_geometry(pipeline, n);
    dispatch_with(rt, pipeline, mtl_size(groups, 1, 1), mtl_size(tpt, 1, 1), encode_bufs)
}

/// A row of threads by `ny` rows of threadgroups.
pub fn dispatch_2d<F: FnOnce(&mut Binder)>(
    rt: &mut GpuRuntime,
    pipeline: &Pipeline,
    nx: usize,
    ny: usize,
    encode_bufs: F,
) -> (r: Result<(), String>)
    requires
        old(rt).inv(),
        forall|b: &mut Binder| encode_bufs.requires((b,)),
    ensures
        final(rt).inv(),
        nx == 0 || ny == 0 ==> r is Ok && final(rt)@ == old(rt)@,
        nx > 0 && ny > 0 && extent_problem(nx, ny, 1) is Some ==> reports(
            r,
            extent_problem(nx, ny, 1),
        ) && final(rt)@ == old(rt)@,
        nx > 0 && ny > 0 && extent_problem(nx, ny, 1) is None ==> {
            &&& old(rt)@.icb.encode_nop ==> r is Ok && final(rt)@ == old(rt)@
            &&& !old(rt)@.icb.encode_nop && old(rt)@.access_problem() is Some ==> {
                &&& final(rt)@ == old(rt)@
                &&& reports(r, old(rt)@.access_problem())
            }
            &&& !old(rt)@.icb.encode_nop && old(rt)@.access_problem() is None ==> exists|
                b: &mut Binder,
            |
                {
                    &&& #[trigger] encode_bufs.ensures((b,), ())
                    &&& (*b)@ == old(rt)@.scoped(None).1.piped(*pipeline)
                    &&& closed_with(
                        old(rt)@.scoped(None).0,
                        (*final(b))@.dispatched(
                            size3(groups_for(pipeline.thread_execution_width, nx), ny, 1),
                            size3(lanes_for(pipeline.thread_execution_width, nx), 1, 1),
                        ),
                        Ok(()),
                        final(rt)@,
                        r,
                    )
                }
        },
{
    if nx == 0 || ny == 0 {
        return Ok(());
    }
    let limit: usize = u32::MAX as usize;
    if nx > limit || ny > limit {
        return Err(owned("dispatch extent exceeds uint indexing"));
    }
    let (groups, tx): (usize, usize) = row_geometry(pipeline, nx);
    dispatch_with(rt, pipeline, mtl_size(groups, ny, 1), mtl_size(tx, 1, 1), encode_bufs)
}

/// A row of threads by `ny` x `nz` planes of threadgroups.
pub fn dispatch_3d<F: FnOnce(&mut Binder)>(
    rt: &mut GpuRuntime,
    pipeline: &Pipeline,
    nx: usize,
    ny: usize,
    nz: usize,
    encode_bufs: F,
) -> (r: Result<(), String>)
    requires
        old(rt).inv(),
        forall|b: &mut Binder| encode_bufs.requires((b,)),
    ensures
        final(rt).inv(),
        nx == 0 || ny == 0 || nz == 0 ==> r is Ok && final(rt)@ == old(rt)@,
        nx > 0 && ny > 0 && nz > 0 && extent_problem(nx, ny, nz) is Some ==> reports(
            r,
            extent_problem(nx, ny, nz),
        ) && final(rt)@ == old(rt)@,
        nx > 0 && ny > 0 && nz > 0 && extent_problem(nx, ny, nz) is None ==> {
            &&& old(rt)@.icb.encode_nop ==> r is Ok && final(rt)@ == old(rt)@
            &&& !old(rt)@.icb.encode_nop && old(rt)@.access_problem() is Some ==> {
                &&& final(rt)@ == old(rt)@
                &&& reports(r, old(rt)@.access_problem())
            }
            &&& !old(rt)@.icb.encode_nop && old(rt)@.access_problem() is None ==> exists|
                b: &mut Binder,
            |
                {
                    &&& #[trigger] encode_bufs.ensures((b,), ())
                    &&& (*b)@ == old(rt)@.scoped(None).1.piped(*pipeline)
                    &&& closed_with(
                        old(rt)@.scoped(None).0,
                        (*final(b))@.dispatched(
                            size3(groups_for(pipeline.thread_execution_width, nx), ny, nz),
                            size3(lanes_for(pipeline.thread_execution_width, nx), 1, 1),
                        ),
                        Ok(()),
                        final(rt)@,
                        r,
                    )
                }
        },
{
    if nx == 0 || ny == 0 || nz == 0 {
        return Ok(());
    }
    let limit: usize = u32::MAX as usize;
    if nx > limit || ny > limit || nz > limit {
        return Err(owned("dispatch extent exceeds uint indexing"));
    }
    let (groups, tx): (usize, usize) = row_geometry(pipeline, nx);
    dispatch_with(rt, pipeline, mtl_size(groups, ny, nz), mtl_size(tx, 1, 1), encode_bufs)
}

/// A grid of threadgroups with a fixed lane count.
pub fn dispatch_2d_tg<F: FnOnce(&mut Binder)>(
    rt: &mut GpuRuntime,
    pipeline: &Pipeline,
    groups_x: usize,
    groups_y: usize,
    threads_per_tg: usize,
    encode_bufs: F,
) -> (r: Result<(), String>)
    requires
        old(rt).inv(),
        forall|b: &mut Binder| encode_bufs.requires((b,)),
    ensures
        final(rt).inv(),
        groups_x == 0 || groups_y == 0 || threads_per_tg == 0 ==> r is Ok && final(rt)@ == old(rt)@,
        groups_x > 0 && groups_y > 0 && threads_per_tg > 0 ==> {
            &&& old(rt)@.icb.encode_nop ==> r is Ok && final(rt)@ == old(rt)@
            &&& !old(rt)@.icb.encode_nop && old(rt)@.access_problem() is Some ==> {
                &&& final(rt)@ == old(rt)@
                &&& reports(r, old(rt)@.access_problem())
            }
            &&& !old(rt)@.icb.encode_nop && old(rt)@.access_problem() is None ==> exists|
                b: &mut Binder,
            |
                {
                    &&& #[trigger] encode_bufs.ensures((b,), ())
                    &&& (*b)@ == old(rt)@.scoped(None).1.piped(*pipeline)
                    &&& closed_with(
                        old(rt)@.scoped(None).0,
                        (*final(b))@.dispatched(
                            size3(groups_x, groups_y, 1),
                            size3(threads_per_tg, 1, 1),
                        ),
                        Ok(()),
                        final(rt)@,
                        r,
                    )
                }
        },
{
    if groups_x == 0 || groups_y == 0 || threads_per_tg == 0 {
        return Ok(());
    }
    dispatch_with(
        rt,
        pipeline,
        mtl_size(groups_x, groups_y, 1),
        mtl_size(threads_per_tg, 1, 1),
        encode_bufs,
    )
}

// ------------------------------------------------------ launches as data ---

impl RuntimeState {
    /// State and outcome of a one-dimensional launch of `n` threads.
    pub open spec fn launched_1d(self, p: Pipeline, n: usize, binds: Seq<Bind>) -> (
        RuntimeState,
        Option<Seq<char>>,
    ) {
        if n == 0 {
            (self, None)
        } else if n > u32::MAX {
            (self, extent_1d_problem(n))
        } else {
            self.launched(
                p,
                binds,
                None,
                size3(groups_for(p.thread_execution_width, n), 1, 1),
                size3(lanes_for(p.thread_execution_width, n), 1, 1),
            )
        }
    }

    /// State and outcome of a launch of `groups` x `rows` threadgroups of
    /// `threads` lanes; an empty grid is a clean no-op.
    pub open spec fn launched_groups(
        self,
        p: Pipeline,
        binds: Seq<Bind>,
        tg_mem: Option<(usize, usize)>,
        groups: usize,
        rows: usize,
        threads: usize,
    ) -> (RuntimeState, Option<Seq<char>>) {
        if groups == 0 || rows == 0 || threads == 0 {
            (self, None)
        } else {
            self.launched(p, binds, tg_mem, size3(groups, rows, 1), size3(threads, 1, 1))
        }
    }
}

/// One-dimensional launch of `n` threads with the binds given as data.
pub fn launch_1d(rt: &mut GpuRuntime, p: &Pipeline, n: usize, binds: &[Bind]) -> (r: Result<
    (),
    String,
>)
    requires
        old(rt).inv(),
    ensures
        final(rt).inv(),
        final(rt)@ == old(rt)@.launched_1d(*p, n, binds@).0,
        reports(r, old(rt)@.launched_1d(*p, n, binds@).1),
{
    if n == 0 {
        return Ok(());
    }
    if n > u32::MAX as usize {
        return Err(owned("1D dispatch exceeds uint indexing"));
    }
    let (groups, tpt): (usize, usize) = row_geometry(p, n);
    rt.launch(p, binds, None, mtl_size(groups, 1, 1), mtl_size(tpt, 1, 1))
}

/// Launch of `groups` x `rows` threadgroups with the binds given as data.
pub fn launch_groups(
    rt: &mut GpuRuntime,
    p: &Pipeline,
    binds: &[Bind],
    tg_mem: Option<(usize, usize)>,
    groups: usize,
    rows: usize,
    threads: usize,
) -> (r: Result<(), String>)
    requires
        old(rt).inv(),
    ensures
        final(rt).inv(),
        final(rt)@ == old(rt)@.launched_groups(*p, binds@, tg_mem, groups, rows, threads).0,
        reports(r, old(rt)@.launched_groups(*p, binds@, tg_mem, groups, rows, threads).1),
{
    if groups == 0 || rows == 0 || threads == 0 {
        return Ok(());
    }
    rt.launch(p, binds, tg_mem, mtl_size(groups, rows, 1), mtl_size(threads, 1, 1))
}

/// One dispatch: a pipeline, its binds and its geometry.
pub struct PassView {
    pub pipeline: Pipeline,
    pub binds: Seq<Bind>,
    pub groups: MtlSize,
    pub threads: MtlSize,
}

impl PassView {
    /// The pass as recorded by a binder.
    pub open spec fn on(self, b: BinderState) -> BinderState {
        b.piped(self.pipeline).bound_all(self.binds).dispatched(self.groups, self.threads)
    }

    /// The device accepts the geometry.
    pub open spec fn fits(self) -> bool {
        geometry_ok(self.groups, self.threads, Some(self.pipeline.max_threads))
    }
}

/// A producer and its consumer in one scope, with a barrier between them where
/// dispatches are not followed by one.
pub open spec fn pair_fn(one: PassView, two: PassView) -> spec_fn(BinderState) -> BinderState {
    |b: BinderState|
        {
            let s = one.on(b);
            two.on(
                if s.skip_auto {
                    s.with_barrier()
                } else {
                    s
                },
            )
        }
}

/// Launches a producer and its consumer in one scope.
pub fn launch_pair(
    rt: &mut GpuRuntime,
    p: &Pipeline,
    p_binds: &[Bind],
    p_groups: MtlSize,
    p_threads: MtlSize,
    c: &Pipeline,
    c_binds: &[Bind],
    c_groups: MtlSize,
    c_threads: MtlSize,
) -> (r: Result<(), String>)
    requires
        old(rt).inv(),
    ensures
        final(rt).inv(),
        ({
            let (s, problem) = old(rt)@.encoded(
                None,
                pair_fn(
                    PassView {
                        pipeline: *p,
                        binds: p_binds@,
                        groups: p_groups,
                        threads: p_threads,
                    },
                    PassView {
                        pipeline: *c,
                        binds: c_binds@,
                        groups: c_groups,
                        threads: c_threads,
                    },
                ),
            );
            final(rt)@ == s && reports(r, problem)
        }),
{
    match rt.may_open_scope() {
        Err(e) => {
            return Err(e);
        },
        Ok(live) => {
            if !live {
                return Ok(());
            }
        },
    }
    let mut b = rt.open_scope(None);
    b.set_pipeline(p);
    b.bind_all(p_binds);
    b.dispatch(p_groups, p_threads);
    if b.needs_explicit_barriers() {
        b.barrier();
    }
    b.set_pipeline(c);
    b.bind_all(c_binds);
    b.dispatch(c_groups, c_threads);
    rt.close_scope(b, Ok(()))
}

// ----------------------------------------------------------------- laws ----

/// The automatic geometry covers every thread, and its last group is not empty.
pub proof fn law_row_geometry_covers(width: usize, n: usize)
    requires
        n > 0,
    ensures
        groups_for(width, n) * lanes_for(width, n) >= n,
        (groups_for(width, n) - 1) * lanes_for(width, n) < n,
        0 < lanes_for(width, n) <= n,
        width > 0 ==> lanes_for(width, n) <= width,
{
    crate::sizes::lemma_ceil_div_covers(n as int, lanes_for(width, n) as int);
}

/// Once a binder has failed, no bind, no constant, no dispatch and no barrier
/// reaches the device, and the first failure is the one reported.
pub proof fn law_failure_silences_the_binder(
    s: BinderState,
    b: Bind,
    p: Pipeline,
    groups: MtlSize,
    threads: MtlSize,
)
    requires
        s.error is Some,
    ensures
        s.bound(b).ops == s.ops && s.bound(b).error == s.error && s.bound(b).cursor == s.cursor,
        s.piped(p) == s,
        s.dispatched(groups, threads) == s,
        s.with_barrier() == s,
{
}

/// Constant payloads sit at 16-byte aligned offsets inside the arena, each
/// past the end of the one before.
pub proof fn law_constants_do_not_overlap(s: BinderState, bytes: Seq<u8>)
    requires
        s.error is None,
        0 <= s.cursor,
        s.written(bytes).0.error is None,
    ensures
        ({
            let start = align16(s.cursor);
            let end = s.written(bytes).0.cursor;
            &&& start % 16 == 0
            &&& s.cursor <= start
            &&& start + bytes.len() <= end
            &&& start + 4 <= end
            &&& end <= METAL4_CONST_ARENA_BYTES
            &&& s.written(bytes).0.blob.subrange(
                s.blob.len() as int,
                (s.blob.len() + bytes.len()) as int,
            ) == bytes
        }),
{
    let w = s.written(bytes).0;
    assert(w.blob == s.blob + padded(bytes));
    assert(w.blob.subrange(s.blob.len() as int, (s.blob.len() + bytes.len()) as int) =~= bytes);
}

} // verus!
