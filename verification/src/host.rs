//! Host access to device buffers: mappings under the exclusive lease, and
//! writes that are asked of the device's owner.

use vstd::prelude::*;

use crate::bytes::{halves_to, push_halves, push_words, words_to};
use crate::device::DeviceOp;
use crate::runtime::{GpuRuntime, HostMapping};
use crate::state::RuntimeState;
use crate::tensor::{GpuBuffer, Storage};
use crate::text::{first, owned, reports, unless};

verus! {

/// Where a buffer is another runtime's.
pub open spec fn foreign_buffer(rt: u64, buf: Storage) -> Option<Seq<char>> {
    unless(buf.runtime == rt, "buffer belongs to another runtime"@)
}

/// What refuses a mapping as elements of `size` bytes that sit at multiples of
/// `size`.
pub open spec fn mapping_problem(
    rt: RuntimeState,
    buf: Storage,
    host_address: usize,
    size: int,
) -> Option<Seq<char>> {
    first(
        foreign_buffer(rt.id, buf),
        first(
            unless(
                buf.nbytes as int % size == 0 && host_address as int % size == 0,
                "host mapping size/alignment mismatch"@,
            ),
            rt.access_problem(),
        ),
    )
}

/// Mapping a buffer as elements of `size` bytes had this effect and outcome.
pub open spec fn maps(
    before: RuntimeState,
    after: RuntimeState,
    buf: Storage,
    host_address: usize,
    size: int,
    r: Result<HostMapping, String>,
) -> bool {
    let problem = mapping_problem(before, buf, host_address, size);
    &&& reports(r, problem)
    &&& r matches Ok(m) ==> m@.buffer == buf && m@.len == buf.nbytes as int / size
    &&& after == if problem is None {
        RuntimeState { busy: true, ..before }.committed(true)
    } else {
        before
    }
}

/// What refuses a host write.
pub open spec fn write_problem(rt: RuntimeState, buf: Storage) -> Option<Seq<char>> {
    first(foreign_buffer(rt.id, buf), rt.access_problem())
}

/// After the host wrote bytes to the start of a buffer: the device caught up
/// first, and the lease is free again.
pub open spec fn write_step(rt: RuntimeState, buf: Storage, bytes: Seq<u8>) -> (
    RuntimeState,
    Option<Seq<char>>,
) {
    match write_problem(rt, buf) {
        Some(m) => (rt, Some(m)),
        None => (
            RuntimeState {
                busy: false,
                ..RuntimeState { busy: true, ..rt }.committed(true).host_written(
                    buf.slab.id,
                    bytes,
                )
            },
            None,
        ),
    }
}

/// After the host zeroed a buffer.
pub open spec fn zero_step(rt: RuntimeState, buf: Storage) -> (RuntimeState, Option<Seq<char>>) {
    match write_problem(rt, buf) {
        Some(m) => (rt, Some(m)),
        None => (
            RuntimeState {
                busy: false,
                ..RuntimeState { busy: true, ..rt }.committed(true).with_op(
                    DeviceOp::Zero { slab: buf.slab.id, offset: 0, len: buf.nbytes },
                )
            },
            None,
        ),
    }
}

impl GpuBuffer {
    fn try_map(&self, rt: &mut GpuRuntime, host_address: usize, size: usize) -> (r: Result<
        HostMapping,
        String,
    >)
        requires
            old(rt).inv(),
            size > 0,
        ensures
            final(rt).inv(),
            maps(old(rt)@, final(rt)@, self@, host_address, size as int, r),
    {
        if !self.belongs_to(rt.id()) {
            return Err(owned("buffer belongs to another runtime"));
        }
        rt.map_host(self, host_address, size, size)
    }

    /// Maps the buffer as floats, by their bit patterns.
    pub fn try_contents_f32(&self, rt: &mut GpuRuntime, host_address: usize) -> (r: Result<
        HostMapping,
        String,
    >)
        requires
            old(rt).inv(),
        ensures
            final(rt).inv(),
            maps(old(rt)@, final(rt)@, self@, host_address, 4, r),
    {
        self.try_map(rt, host_address, 4)
    }

    /// Maps the buffer as words.
    pub fn try_contents_u32(&self, rt: &mut GpuRuntime, host_address: usize) -> (r: Result<
        HostMapping,
        String,
    >)
        requires
            old(rt).inv(),
        ensures
            final(rt).inv(),
            maps(old(rt)@, final(rt)@, self@, host_address, 4, r),
    {
        self.try_map(rt, host_address, 4)
    }

    /// Maps the buffer as half words.
    pub fn try_contents_u16(&self, rt: &mut GpuRuntime, host_address: usize) -> (r: Result<
        HostMapping,
        String,
    >)
        requires
            old(rt).inv(),
        ensures
            final(rt).inv(),
            maps(old(rt)@, final(rt)@, self@, host_address, 2, r),
    {
        self.try_map(rt, host_address, 2)
    }

    /// Maps the buffer as bytes.
    pub fn try_contents_u8(&self, rt: &mut GpuRuntime, host_address: usize) -> (r: Result<
        HostMapping,
        String,
    >)
        requires
            old(rt).inv(),
        ensures
            final(rt).inv(),
            maps(old(rt)@, final(rt)@, self@, host_address, 1, r),
    {
        self.try_map(rt, host_address, 1)
    }

    /// Writes bytes to the start of the buffer.
    pub fn write_bytes(&self, rt: &mut GpuRuntime, data: &[u8]) -> (r: Result<(), String>)
        requires
            old(rt).inv(),
            data@.len() <= self@.nbytes,
        ensures
            final(rt).inv(),
            ({
                let (s, problem) = write_step(old(rt)@, self@, data@);
                final(rt)@ == s && reports(r, problem)
            }),
    {
        if !self.belongs_to(rt.id()) {
            return Err(owned("buffer belongs to another runtime"));
        }
        rt.host_access()?;
        rt.host_write(self.at().slab.id, data);
        rt.release_access();
        Ok(())
    }

    /// Fills the buffer with words.
    pub fn write_u32(&self, rt: &mut GpuRuntime, data: &[u32]) -> (r: Result<(), String>)
        requires
            old(rt).inv(),
            4 * data@.len() == self@.nbytes,
        ensures
            final(rt).inv(),
            ({
                let (s, problem) = write_step(
                    old(rt)@,
                    self@,
                    words_to(data@, data@.len() as int),
                );
                final(rt)@ == s && reports(r, problem)
            }),
    {
        self.write_f32_prefix(rt, data)
    }

    /// Fills the buffer with floats, given by their bit patterns.
    pub fn write_f32(&self, rt: &mut GpuRuntime, data: &[u32]) -> (r: Result<(), String>)
        requires
            old(rt).inv(),
            4 * data@.len() == self@.nbytes,
        ensures
            final(rt).inv(),
            ({
                let (s, problem) = write_step(
                    old(rt)@,
                    self@,
                    words_to(data@, data@.len() as int),
                );
                final(rt)@ == s && reports(r, problem)
            }),
    {
        self.write_f32_prefix(rt, data)
    }

    /// Writes floats, given by their bit patterns, to the start of the buffer.
    pub fn write_f32_prefix(&self, rt: &mut GpuRuntime, data: &[u32]) -> (r: Result<(), String>)
        requires
            old(rt).inv(),
            4 * data@.len() <= self@.nbytes,
            self@.nbytes % 4 == 0,
        ensures
            final(rt).inv(),
            ({
                let (s, problem) = write_step(
                    old(rt)@,
                    self@,
                    words_to(data@, data@.len() as int),
                );
                final(rt)@ == s && reports(r, problem)
            }),
    {
        let mut bytes: Vec<u8> = Vec::new();
        push_words(&mut bytes, data);
        proof {
            crate::bytes::law_words_read_back(data@, data@.len() as int);
            assert(bytes@ =~= words_to(data@, data@.len() as int));
        }
        self.write_bytes(rt, bytes.as_slice())
    }

    /// Fills the buffer with bf16 bit patterns.
    pub fn write_bf16_bits(&self, rt: &mut GpuRuntime, data: &[u16]) -> (r: Result<(), String>)
        requires
            old(rt).inv(),
            2 * data@.len() == self@.nbytes,
        ensures
            final(rt).inv(),
            ({
                let (s, problem) = write_step(
                    old(rt)@,
                    self@,
                    halves_to(data@, data@.len() as int),
                );
                final(rt)@ == s && reports(r, problem)
            }),
    {
        let mut bytes: Vec<u8> = Vec::new();
        push_halves(&mut bytes, data);
        proof {
            lemma_halves_len(data@, data@.len() as int);
            assert(bytes@ =~= halves_to(data@, data@.len() as int));
        }
        self.write_bytes(rt, bytes.as_slice())
    }

    /// Zeroes the buffer.
    pub fn zero(&self, rt: &mut GpuRuntime) -> (r: Result<(), String>)
        requires
            old(rt).inv(),
        ensures
            final(rt).inv(),
            ({
                let (s, problem) = zero_step(old(rt)@, self@);
                final(rt)@ == s && reports(r, problem)
            }),
    {
        if !self.belongs_to(rt.id()) {
            return Err(owned("buffer belongs to another runtime"));
        }
        rt.host_access()?;
        rt.note_op(DeviceOp::Zero { slab: self.at().slab.id, offset: 0, len: self.nbytes() });
        rt.release_access();
        Ok(())
    }
}

proof fn lemma_halves_len(data: Seq<u16>, n: int)
    requires
        0 <= n <= data.len(),
    ensures
        halves_to(data, n).len() == 2 * n,
    decreases n,
{
    if n > 0 {
        lemma_halves_len(data, n - 1);
    }
}

/// While a buffer is mapped the runtime refuses every other mapping, write and
/// scope, and takes them again once the mapping ends.
pub proof fn law_mappings_exclude_all_else(
    rt: RuntimeState,
    buf: Storage,
    other: Storage,
    address: usize,
    size: int,
)
    requires
        mapping_problem(rt, buf, address, size) is None,
        size > 0,
    ensures
        ({
            let mapped = RuntimeState { busy: true, ..rt }.committed(true);
            let free = RuntimeState { busy: false, ..mapped };
            &&& mapped.access_problem() is Some
            &&& write_problem(mapped, other) is Some
            &&& mapping_problem(mapped, other, address, size) is Some
            &&& free.access_problem() is None
            &&& free.batch is None
            &&& free.pending.len() == 0
        }),
{
    crate::runtime::lemma_committed_frame(RuntimeState { busy: true, ..rt }, true);
}

} // verus!
