//! What the library knows of the device: its limits, the kernels it offers, and
//! the operations the library asks of it. The operations are plain data, kept
//! in order; whoever owns the device carries them out.

use vstd::prelude::*;

use crate::tensor::Slab;

verus! {

/// Three-dimensional extent of a grid or a threadgroup.
#[derive(Clone, Copy, Debug, PartialEq, Eq, Structural)]
pub struct MtlSize {
    pub width: usize,
    pub height: usize,
    pub depth: usize,
}

/// An extent from its three sides.
pub fn mtl_size(w: usize, h: usize, d: usize) -> (r: MtlSize)
    ensures
        r == size3(w, h, d),
{
    MtlSize { width: w, height: h, depth: d }
}

/// An extent from its three sides.
pub open spec fn size3(w: usize, h: usize, d: usize) -> MtlSize {
    MtlSize { width: w, height: h, depth: d }
}

/// Lanes of a threadgroup.
pub open spec fn lanes(size: MtlSize) -> int {
    size.width * size.height * size.depth
}

/// A compiled kernel, as the device describes it.
#[derive(Clone, Copy, Debug, PartialEq, Eq, Structural)]
pub struct Pipeline {
    /// Entry of the kernel catalog.
    pub kernel: usize,
    /// Built to be usable from an indirect command buffer.
    pub icb: bool,
    /// Lanes that execute together.
    pub thread_execution_width: usize,
    /// Most lanes of one threadgroup.
    pub max_threads: usize,
}

/// A kernel the device can build a pipeline for.
#[derive(Debug)]
pub struct Kernel {
    pub name: String,
    /// 0 for the primary library, overlays in the order they were added after it.
    pub library: usize,
    pub thread_execution_width: usize,
    pub max_threads: usize,
    /// The indirect-command-buffer build is supported.
    pub icb_capable: bool,
}

/// Limits and facts probed from the device once.
#[derive(Clone, Copy, Debug, PartialEq, Eq, Structural)]
pub struct DeviceInfo {
    pub max_buffer_length: usize,
    pub max_threadgroup_memory: usize,
    /// Where the device sees the constant arena.
    pub arena_address: u64,
    pub recommended_working_set: u64,
    pub memory_size: u64,
    /// The command buffers carry timestamps.
    pub counter_heap: bool,
}

/// One operation asked of the device. Byte payloads sit in a side blob and are
/// named by their range in it.
#[derive(Clone, Copy, Debug, PartialEq, Eq, Structural)]
pub enum DeviceOp {
    /// Make a shared-storage buffer.
    CreateBuffer { made: Slab },
    /// Let go of a buffer that is out of use and not kept for later.
    DropBuffer { slab: u64 },
    /// Zero `len` bytes of a slab from `offset` on.
    Zero { slab: u64, offset: usize, len: usize },
    /// Copy `len` blob bytes from `from` to the start of a slab.
    HostWrite { slab: u64, from: usize, len: usize },
    /// Write the floats 1, 2, 3 and so on to the start of a slab.
    HostRamp { slab: u64, floats: usize },
    /// Build a pipeline.
    BuildPipeline { kernel: usize, indirect: bool },
    /// Residency set edits, and their commit.
    AddResidency { slab: u64 },
    RemoveResidency { slab: u64 },
    CommitResidency,
    UseResidency,
    /// Command buffer lifecycle.
    BeginCommands { allocator: usize },
    Timestamp { index: usize },
    OpenEncoder,
    EndEncoding,
    EndCommands,
    Submit,
    Signal { value: u64 },
    Wait { value: u64 },
    /// Wait until one of the two command allocators is free.
    WaitAllocator { value: u64 },
    ResetAllocator { allocator: usize },
    ResolveTimestamps,
    /// Copy `len` blob bytes from `from` to `offset` of the constant arena.
    WriteConst { offset: usize, from: usize, len: usize },
    SetPipeline { pipeline: Pipeline },
    /// Set a slot of the runtime's argument table.
    SetAddress { index: usize, address: u64 },
    SetResource { index: usize, resource: u64 },
    /// Set a slot of a prebuilt argument table.
    SetTableAddress { table: u64, index: usize, address: u64 },
    CreateTable { table: u64 },
    /// Make a table the encoder's.
    UseTable { table: u64 },
    ThreadgroupMemory { index: usize, length: usize },
    Dispatch { groups: MtlSize, threads: MtlSize },
    /// Dispatch-to-dispatch device barrier.
    Barrier,
    /// Indirect command buffers.
    CreateIcb { icb: u64, freeze: bool, capacity: usize },
    AddIcbResidency { icb: u64 },
    IcbReset { icb: u64, at: usize, pipeline: Pipeline },
    IcbKernelBuffer { icb: u64, at: usize, index: usize, slab: u64, offset: usize },
    IcbThreadgroupMemory { icb: u64, at: usize, index: usize, length: usize },
    IcbDispatch { icb: u64, at: usize, groups: MtlSize, threads: MtlSize },
    ExecuteIcb { icb: u64, start: u64, count: u64 },
    OptimizeIcb { icb: u64, start: u64, count: u64 },
    /// Report the mean magnitude of the first `floats` floats of a slab, after
    /// command `at` of `total`.
    Probe { slab: u64, floats: usize, at: usize, total: usize },
    /// Report how the first run of a graph went whose ranges run as one: its
    /// commands, barrier markers and dropped markers, the ranges that were run and
    /// the commands they covered, and the table switches.
    ReportRanges {
        commands: usize,
        barriers: usize,
        elided: u64,
        calls: u64,
        covered: u64,
        tables: u64,
    },
}

/// Buffer slots of an argument table.
pub const ARGUMENT_TABLE_MAX_BUFFERS: usize = 31;

/// Bytes of the constant arena.
pub const METAL4_CONST_ARENA_BYTES: usize = 16777216;

/// The runtime's own argument table; prebuilt tables are numbered from 1.
pub const PERSISTENT_TABLE: u64 = 0;

} // verus!
