//! The live encode, a replay through argument tables and a replay from frozen
//! binds give a kernel the same addresses.

use vstd::prelude::*;

use crate::capture::{buf_address, rebound, slot_position, BindView, CommandView};
use crate::decode_icb::graph::{
    command_encoded, encoded_to, frozen_binds, frozen_commands, graph_step, kernel_buffers,
    table_filled,
};
use crate::decode_icb::replay::ReplayState;
use crate::device::{DeviceOp, MtlSize, Pipeline};
use crate::dispatch::BinderState;
use crate::seen::{lemma_seen_local, nothing, seen, shown, starts};
use crate::state::RuntimeState;
use crate::tensor::Storage;

verus! {

// ---------------------------------------------- what an ICB command holds ---

/// One command of an indirect command buffer: the pipeline, the slab and the
/// offset in each slot, threadgroup memory, and groups and threads.
pub struct Held {
    pub pipeline: Pipeline,
    pub buffers: Map<usize, (u64, usize)>,
    pub memory: Map<usize, usize>,
    pub size: Option<(MtlSize, MtlSize)>,
}

/// The commands of an ICB after one more operation.
pub open spec fn icb_after(all: Map<usize, Held>, icb: u64, op: DeviceOp) -> Map<usize, Held> {
    match op {
        DeviceOp::IcbReset { icb: of, at, pipeline } => if of == icb {
            all.insert(
                at,
                Held { pipeline, buffers: Map::empty(), memory: Map::empty(), size: None },
            )
        } else {
            all
        },
        DeviceOp::IcbKernelBuffer { icb: of, at, index, slab, offset } => if of == icb {
            all.insert(
                at,
                Held { buffers: all[at].buffers.insert(index, (slab, offset)), ..all[at] },
            )
        } else {
            all
        },
        DeviceOp::IcbThreadgroupMemory { icb: of, at, index, length } => if of == icb {
            all.insert(at, Held { memory: all[at].memory.insert(index, length), ..all[at] })
        } else {
            all
        },
        DeviceOp::IcbDispatch { icb: of, at, groups, threads } => if of == icb {
            all.insert(at, Held { size: Some((groups, threads)), ..all[at] })
        } else {
            all
        },
        _ => all,
    }
}

/// The commands of an ICB after the first `n` operations.
pub open spec fn icb_seen(ops: Seq<DeviceOp>, icb: u64, n: int) -> Map<usize, Held>
    decreases n,
{
    if n <= 0 {
        Map::empty()
    } else {
        icb_after(icb_seen(ops, icb, n - 1), icb, ops[n - 1])
    }
}

/// The commands of an ICB as a runtime left them.
pub open spec fn icb_of(rt: RuntimeState, icb: u64) -> Map<usize, Held> {
    icb_seen(rt.ops, icb, rt.ops.len() as int)
}

proof fn lemma_icb_local(a: Seq<DeviceOp>, b: Seq<DeviceOp>, icb: u64, n: int)
    requires
        n <= a.len(),
        starts(a, b),
    ensures
        icb_seen(a, icb, n) == icb_seen(b, icb, n),
    decreases n,
{
    if n > 0 {
        lemma_icb_local(a, b, icb, n - 1);
        reveal(starts);
        assert(a[n - 1] == b[n - 1]);
    }
}

proof fn lemma_icb_op(rt: RuntimeState, icb: u64, op: DeviceOp)
    ensures
        icb_of(rt.with_op(op), icb) == icb_after(icb_of(rt, icb), icb, op),
{
    let more = rt.ops.push(op);
    assert(starts(rt.ops, more)) by {
        reveal(starts);
    }
    lemma_icb_local(rt.ops, more, icb, rt.ops.len() as int);
}

// ------------------------------------------------------------------ binds ---

/// Each slot has one bind.
pub open spec fn slots_once(binds: Seq<BindView>) -> bool {
    forall|i: int, j: int|
        0 <= i < j < binds.len() ==> (#[trigger] binds[i]).slot() != (#[trigger] binds[j]).slot()
}

/// The address of a buffer bind is that of its byte.
pub open spec fn addressed(b: BindView) -> bool {
    match b {
        BindView::Buf { buf, byte_offset, gpu_addr, .. } => gpu_addr == (buf.slab.address
            + byte_offset) % 0x1_0000_0000_0000_0000,
        BindView::Immediate { .. } => true,
    }
}

/// So it is for every bind of a tape, and each slot of a command has one bind.
pub open spec fn tape_addressed(commands: Seq<CommandView>) -> bool {
    forall|i: int|
        0 <= i < commands.len() ==> {
            &&& slots_once((#[trigger] commands[i]).binds)
            &&& forall|j: int|
                0 <= j < commands[i].binds.len() ==> addressed(#[trigger] commands[i].binds[j])
        }
}

/// The command holds the buffer binds among the first `n`.
pub open spec fn buffers_held(h: Held, binds: Seq<BindView>, n: int) -> bool {
    forall|j: int|
        0 <= j < n && #[trigger] binds[j] is Buf ==> h.buffers.contains_key(binds[j].slot())
            && h.buffers[binds[j].slot()] == (binds[j]->buf.slab.id, binds[j]->byte_offset)
}

/// The ICB holds a command of the tape.
pub open spec fn command_held(h: Held, c: CommandView) -> bool {
    &&& h.pipeline == c.pipeline
    &&& h.size == Some((c.threadgroups, c.threads_per_tg))
    &&& buffers_held(h, c.binds, c.binds.len() as int)
    &&& match c.tg_mem {
        Some((index, length)) => h.memory.contains_key(index) && h.memory[index] == length,
        None => true,
    }
}

/// All commands but one are as they were.
pub open spec fn others_kept(a: Map<usize, Held>, b: Map<usize, Held>, at: usize) -> bool {
    forall|k: usize|
        k != at ==> a.contains_key(k) == #[trigger] b.contains_key(k) && a[k] == b[k]
}

proof fn lemma_buffers_held(rt: RuntimeState, icb: u64, at: usize, binds: Seq<BindView>, n: int)
    requires
        0 <= n <= binds.len(),
        slots_once(binds),
        icb_of(rt, icb).contains_key(at),
    ensures
        ({
            let a = icb_of(rt, icb);
            let b = icb_of(kernel_buffers(rt, icb, at, binds, n), icb);
            &&& b.contains_key(at)
            &&& b[at].pipeline == a[at].pipeline
            &&& b[at].memory == a[at].memory
            &&& b[at].size == a[at].size
            &&& others_kept(a, b, at)
            &&& buffers_held(b[at], binds, n)
        }),
    decreases n,
{
    if n > 0 {
        lemma_buffers_held(rt, icb, at, binds, n - 1);
        let s = kernel_buffers(rt, icb, at, binds, n - 1);
        match binds[n - 1] {
            BindView::Buf { index, buf, byte_offset, .. } => {
                lemma_icb_op(
                    s,
                    icb,
                    kernel_buffers(rt, icb, at, binds, n).ops.last(),
                );
                let b = icb_of(kernel_buffers(rt, icb, at, binds, n), icb);
                assert forall|j: int| 0 <= j < n && #[trigger] binds[j] is Buf implies b[at].buffers.contains_key(
                    binds[j].slot(),
                ) && b[at].buffers[binds[j].slot()] == (
                    binds[j]->buf.slab.id,
                    binds[j]->byte_offset,
                ) by {
                    if j < n - 1 {
                        assert(binds[j].slot() != binds[n - 1].slot());
                    }
                }
            },
            BindView::Immediate { .. } => {},
        }
    }
}

proof fn lemma_command_held(rt: RuntimeState, icb: u64, at: usize, c: CommandView)
    requires
        slots_once(c.binds),
    ensures
        ({
            let b = icb_of(command_encoded(rt, icb, at, c, true), icb);
            &&& b.contains_key(at)
            &&& command_held(b[at], c)
            &&& others_kept(icb_of(rt, icb), b, at)
        }),
{
    let reset = DeviceOp::IcbReset { icb, at, pipeline: c.pipeline };
    lemma_icb_op(rt, icb, reset);
    let s = rt.with_op(reset);
    lemma_buffers_held(s, icb, at, c.binds, c.binds.len() as int);
    let k = kernel_buffers(s, icb, at, c.binds, c.binds.len() as int);
    let t = match c.tg_mem {
        Some((index, length)) => {
            let op = DeviceOp::IcbThreadgroupMemory { icb, at, index, length };
            lemma_icb_op(k, icb, op);
            k.with_op(op)
        },
        None => k,
    };
    lemma_icb_op(
        t,
        icb,
        DeviceOp::IcbDispatch { icb, at, groups: c.threadgroups, threads: c.threads_per_tg },
    );
}

/// The ICB holds command `i` of the tape.
pub open spec fn tape_held_at(all: Map<usize, Held>, commands: Seq<CommandView>, i: int) -> bool {
    all.contains_key(i as usize) && command_held(all[i as usize], commands[i])
}

/// The ICB holds the first `n` commands of the tape.
#[verifier::opaque]
pub open spec fn tape_held(all: Map<usize, Held>, commands: Seq<CommandView>, n: int) -> bool {
    forall|i: int| 0 <= i < n ==> #[trigger] tape_held_at(all, commands, i)
}

proof fn lemma_tape_held_step(
    a: Map<usize, Held>,
    b: Map<usize, Held>,
    commands: Seq<CommandView>,
    n: int,
)
    requires
        0 < n <= commands.len() <= usize::MAX,
        tape_held(a, commands, n - 1),
        others_kept(a, b, (n - 1) as usize),
        b.contains_key((n - 1) as usize),
        command_held(b[(n - 1) as usize], commands[n - 1]),
    ensures
        tape_held(b, commands, n),
{
    reveal(tape_held);
    assert forall|i: int| 0 <= i < n implies #[trigger] tape_held_at(b, commands, i) by {
        if i < n - 1 {
            assert(tape_held_at(a, commands, i));
            assert(a.contains_key(i as usize) == b.contains_key(i as usize));
        }
    }
}

proof fn lemma_commands_held(rt: RuntimeState, icb: u64, commands: Seq<CommandView>, n: int)
    requires
        0 <= n <= commands.len() <= usize::MAX,
        forall|i: int| 0 <= i < commands.len() ==> slots_once((#[trigger] commands[i]).binds),
    ensures
        tape_held(icb_of(encoded_to(rt, icb, commands, true, n), icb), commands, n),
    decreases n,
{
    if n > 0 {
        lemma_commands_held(rt, icb, commands, n - 1);
        let s = encoded_to(rt, icb, commands, true, n - 1);
        lemma_command_held(s, icb, (n - 1) as usize, commands[n - 1]);
        let t = command_encoded(s, icb, (n - 1) as usize, commands[n - 1], true);
        assert(encoded_to(rt, icb, commands, true, n) == t);
        lemma_tape_held_step(icb_of(s, icb), icb_of(t, icb), commands, n);
    } else {
        reveal(tape_held);
    }
}

// -------------------------------------------------------- frozen constants --

/// Bytes went to the start of a slab.
pub open spec fn bytes_sent(ops: Seq<DeviceOp>, blob: Seq<u8>, slab: u64, bytes: Seq<u8>) -> bool {
    exists|k: int| 0 <= k < ops.len() && #[trigger] sends(ops[k], blob, slab, bytes)
}

/// The operation writes the bytes to the start of the slab.
pub open spec fn sends(op: DeviceOp, blob: Seq<u8>, slab: u64, bytes: Seq<u8>) -> bool {
    match op {
        DeviceOp::HostWrite { slab: to, from, len } => to == slab && len == bytes.len() && from
            + len <= blob.len() && blob.subrange(from as int, from + len) == bytes,
        _ => false,
    }
}

/// A bind that was frozen: a buffer bind stays, constant bytes become a buffer of
/// their own that has them from its start.
pub open spec fn froze(before: BindView, after: BindView, ops: Seq<DeviceOp>, blob: Seq<u8>) -> bool {
    match before {
        BindView::Buf { .. } => after == before,
        BindView::Immediate { index, bytes } => match after {
            BindView::Buf { index: to, buf, byte_offset, gpu_addr } => {
                &&& to == index
                &&& byte_offset == 0
                &&& gpu_addr == buf.slab.address
                &&& bytes.len() <= buf.nbytes
                &&& bytes_sent(ops, blob, buf.slab.id, bytes)
            },
            BindView::Immediate { .. } => false,
        },
    }
}

proof fn lemma_froze_on(
    x: BindView,
    y: BindView,
    a: RuntimeState,
    b: RuntimeState,
)
    requires
        froze(x, y, a.ops, a.blob),
        starts(a.ops, b.ops),
        starts(a.blob, b.blob),
    ensures
        froze(x, y, b.ops, b.blob),
{
    reveal(starts);
    match x {
        BindView::Immediate { index, bytes } => {
            let slab = y->buf.slab.id;
            let k = choose|k: int|
                0 <= k < a.ops.len() && #[trigger] sends(a.ops[k], a.blob, slab, bytes);
            assert(b.ops[k] == a.ops[k]);
            match a.ops[k] {
                DeviceOp::HostWrite { slab: to, from, len } => {
                    assert(b.blob.subrange(from as int, from + len) =~= a.blob.subrange(
                        from as int,
                        from + len,
                    ));
                },
                _ => {},
            }
            assert(sends(b.ops[k], b.blob, slab, bytes));
        },
        _ => {},
    }
}

/// All of `before` were frozen.
pub open spec fn all_froze(
    before: Seq<BindView>,
    after: Seq<BindView>,
    ops: Seq<DeviceOp>,
    blob: Seq<u8>,
    n: int,
) -> bool {
    &&& after.len() == n
    &&& forall|j: int| 0 <= j < n ==> froze(before[j], #[trigger] after[j], ops, blob)
}

proof fn lemma_binds_froze(rt: RuntimeState, binds: Seq<BindView>, n: int)
    requires
        0 <= n <= binds.len(),
        frozen_binds(rt, binds, n).0.blob.len() <= usize::MAX,
    ensures
        starts(rt.ops, frozen_binds(rt, binds, n).0.ops),
        starts(rt.blob, frozen_binds(rt, binds, n).0.blob),
        frozen_binds(rt, binds, n).1 matches Ok(r) ==> all_froze(
            binds,
            r.0,
            frozen_binds(rt, binds, n).0.ops,
            frozen_binds(rt, binds, n).0.blob,
            n,
        ),
    decreases n,
{
    if n > 0 {
        let (s, r) = frozen_binds(rt, binds, n - 1);
        let t = frozen_binds(rt, binds, n).0;
        assert(starts(s.ops, t.ops) && starts(s.blob, t.blob)) by {
            lemma_frozen_extends(rt, binds, n);
        }
        assert(s.blob.len() <= t.blob.len()) by {
            reveal(starts);
        }
        lemma_binds_froze(rt, binds, n - 1);
        crate::seen::lemma_starts_on(rt.ops, s.ops, t.ops);
        crate::seen::lemma_starts_on(rt.blob, s.blob, t.blob);
        match frozen_binds(rt, binds, n).1 {
            Ok(q) => {
                let done = r->Ok_0.0;
                assert forall|j: int| 0 <= j < n implies froze(
                    binds[j],
                    #[trigger] q.0[j],
                    t.ops,
                    t.blob,
                ) by {
                    if j < n - 1 {
                        assert(q.0[j] == done[j]);
                        lemma_froze_on(binds[j], done[j], s, t);
                    } else {
                        match binds[j] {
                            BindView::Immediate { index, bytes } => {
                                crate::seen::lemma_allocated_quiet(
                                    s,
                                    crate::sizes::most(bytes.len() as int, 4) as usize,
                                    crate::tensor::BufferKind::Hot,
                                );
                                lemma_sent(s, bytes);
                            },
                            _ => {},
                        }
                    }
                }
            },
            Err(_) => {},
        }
    } else {
        reveal(starts);
    }
}

/// Constant bytes that got a buffer of their own.
proof fn lemma_sent(s: RuntimeState, bytes: Seq<u8>)
    requires
        s.blob.len() + bytes.len() <= usize::MAX,
        s.allocated(
            crate::sizes::most(bytes.len() as int, 4) as usize,
            crate::tensor::BufferKind::Hot,
        ).1 is Ok,
    ensures
        ({
            let (t, a) = s.allocated(
                crate::sizes::most(bytes.len() as int, 4) as usize,
                crate::tensor::BufferKind::Hot,
            );
            let u = t.host_written(a->Ok_0.slab.id, bytes);
            &&& bytes_sent(u.ops, u.blob, a->Ok_0.slab.id, bytes)
            &&& a->Ok_0.nbytes >= bytes.len()
            &&& buf_address(a->Ok_0, 0) == a->Ok_0.slab.address
        }),
{
    let n = crate::sizes::most(bytes.len() as int, 4) as usize;
    crate::seen::lemma_allocated_quiet(s, n, crate::tensor::BufferKind::Hot);
    let (t, a) = s.allocated(n, crate::tensor::BufferKind::Hot);
    let u = t.host_written(a->Ok_0.slab.id, bytes);
    let k = u.ops.len() - 1;
    assert(u.blob.subrange(t.blob.len() as int, (t.blob.len() + bytes.len()) as int) =~= bytes);
    assert(sends(u.ops[k], u.blob, a->Ok_0.slab.id, bytes));
}

proof fn lemma_frozen_extends(rt: RuntimeState, binds: Seq<BindView>, n: int)
    requires
        0 < n,
    ensures
        starts(frozen_binds(rt, binds, n - 1).0.ops, frozen_binds(rt, binds, n).0.ops),
        starts(frozen_binds(rt, binds, n - 1).0.blob, frozen_binds(rt, binds, n).0.blob),
{
    let (s, r) = frozen_binds(rt, binds, n - 1);
    match binds[n - 1] {
        BindView::Immediate { index, bytes } => {
            crate::seen::lemma_allocated_quiet(
                s,
                crate::sizes::most(bytes.len() as int, 4) as usize,
                crate::tensor::BufferKind::Hot,
            );
            reveal(crate::seen::quietly);
        },
        _ => {},
    }
    reveal(starts);
}

/// A command that was frozen.
pub open spec fn command_froze(
    before: CommandView,
    after: CommandView,
    ops: Seq<DeviceOp>,
    blob: Seq<u8>,
) -> bool {
    &&& after.pipeline == before.pipeline
    &&& after.threadgroups == before.threadgroups
    &&& after.threads_per_tg == before.threads_per_tg
    &&& after.tg_mem == before.tg_mem
    &&& after.barrier_after == before.barrier_after
    &&& all_froze(before.binds, after.binds, ops, blob, before.binds.len() as int)
}

proof fn lemma_commands_froze(rt: RuntimeState, commands: Seq<CommandView>, n: int)
    requires
        0 <= n <= commands.len(),
        frozen_commands(rt, commands, n).0.blob.len() <= usize::MAX,
    ensures
        starts(rt.ops, frozen_commands(rt, commands, n).0.ops),
        starts(rt.blob, frozen_commands(rt, commands, n).0.blob),
        frozen_commands(rt, commands, n).1 matches Ok(r) ==> {
            &&& r.len() == n
            &&& forall|i: int|
                0 <= i < n ==> command_froze(
                    commands[i],
                    #[trigger] r[i],
                    frozen_commands(rt, commands, n).0.ops,
                    frozen_commands(rt, commands, n).0.blob,
                )
        },
    decreases n,
{
    if n > 0 {
        let (s, r) = frozen_commands(rt, commands, n - 1);
        let t = frozen_commands(rt, commands, n).0;
        let binds = commands[n - 1].binds;
        match r {
            Err(_) => {
                lemma_commands_froze(rt, commands, n - 1);
            },
            Ok(done) => {
                let u = frozen_binds(s, binds, binds.len() as int).0;
                assert(t == u);
                lemma_binds_froze(s, binds, binds.len() as int);
                assert(s.blob.len() <= u.blob.len()) by {
                    reveal(starts);
                }
                lemma_commands_froze(rt, commands, n - 1);
                crate::seen::lemma_starts_on(rt.ops, s.ops, t.ops);
                crate::seen::lemma_starts_on(rt.blob, s.blob, t.blob);
                match frozen_commands(rt, commands, n).1 {
                    Ok(q) => {
                        assert forall|i: int| 0 <= i < n implies command_froze(
                            commands[i],
                            #[trigger] q[i],
                            t.ops,
                            t.blob,
                        ) by {
                            if i < n - 1 {
                                assert(q[i] == done[i]);
                                lemma_command_froze_on(commands[i], done[i], s, t);
                            }
                        }
                    },
                    Err(_) => {},
                }
            },
        }
    } else {
        reveal(starts);
    }
}

proof fn lemma_command_froze_on(
    x: CommandView,
    y: CommandView,
    a: RuntimeState,
    b: RuntimeState,
)
    requires
        command_froze(x, y, a.ops, a.blob),
        starts(a.ops, b.ops),
        starts(a.blob, b.blob),
    ensures
        command_froze(x, y, b.ops, b.blob),
{
    assert forall|j: int| 0 <= j < x.binds.len() implies froze(
        x.binds[j],
        #[trigger] y.binds[j],
        b.ops,
        b.blob,
    ) by {
        lemma_froze_on(x.binds[j], y.binds[j], a, b);
    }
}

/// Freezing keeps slots and addresses.
proof fn lemma_froze_addressed(
    before: Seq<CommandView>,
    after: Seq<CommandView>,
    ops: Seq<DeviceOp>,
    blob: Seq<u8>,
)
    requires
        tape_addressed(before),
        after.len() == before.len(),
        forall|i: int|
            0 <= i < before.len() ==> command_froze(before[i], #[trigger] after[i], ops, blob),
    ensures
        tape_addressed(after),
{
    assert forall|i: int| 0 <= i < after.len() implies {
        &&& slots_once((#[trigger] after[i]).binds)
        &&& forall|j: int| 0 <= j < after[i].binds.len() ==> addressed(#[trigger] after[i].binds[j])
    } by {
        let x = before[i].binds;
        let y = after[i].binds;
        assert(command_froze(before[i], after[i], ops, blob));
        assert(slots_once(x));
        assert forall|p: int, q: int| 0 <= p < q < y.len() implies (#[trigger] y[p]).slot() != (
        #[trigger] y[q]).slot() by {
            assert(froze(x[p], y[p], ops, blob) && froze(x[q], y[q], ops, blob));
            assert(x[p].slot() != x[q].slot());
        }
        assert forall|j: int| 0 <= j < y.len() implies addressed(#[trigger] y[j]) by {
            assert(froze(x[j], y[j], ops, blob));
            assert(addressed(x[j]));
        }
    }
}

/// What an ICB command holds in a slot is the byte at `address`.
pub open spec fn slot_reaches(h: Held, b: BindView) -> bool {
    let (slab, offset) = h.buffers[b.slot()];
    &&& h.buffers.contains_key(b.slot())
    &&& slab == b->buf.slab.id
    &&& (b->buf.slab.address + offset) % 0x1_0000_0000_0000_0000 == b->gpu_addr
}

/// Every command of a frozen graph holds, for each bind of the command it was made
/// from, the same pipeline and geometry, and in the bind's slot the slab and the
/// offset whose sum is the bind's device address. Constant bytes sit at the start
/// of a slab of their own.
pub proof fn law_frozen_graphs_hold_the_addresses(
    rt: RuntimeState,
    commands: Seq<CommandView>,
    i: int,
    j: int,
)
    requires
        tape_addressed(commands),
        commands.len() <= usize::MAX,
        graph_step(rt, commands, true).1 is Ok,
        graph_step(rt, commands, true).0.blob.len() <= usize::MAX,
        0 <= i < commands.len(),
        0 <= j < commands[i].binds.len(),
    ensures
        ({
            let t = graph_step(rt, commands, true).0;
            let g = graph_step(rt, commands, true).1->Ok_0;
            let h = icb_of(t, g.icb)[i as usize];
            let c = commands[i];
            let b = g.commands[i].binds[j];
            &&& icb_of(t, g.icb).contains_key(i as usize)
            &&& h.pipeline == c.pipeline
            &&& h.size == Some((c.threadgroups, c.threads_per_tg))
            &&& c.tg_mem matches Some((index, length)) ==> h.memory.contains_key(index)
                && h.memory[index] == length
            &&& b is Buf
            &&& b.slot() == c.binds[j].slot()
            &&& slot_reaches(h, b)
            &&& match c.binds[j] {
                BindView::Buf { buf, gpu_addr, .. } => b->buf == buf && b->gpu_addr == gpu_addr,
                BindView::Immediate { bytes, .. } => b->gpu_addr == b->buf.slab.address
                    && bytes_sent(t.ops, t.blob, b->buf.slab.id, bytes),
            }
        }),
{
    let n = commands.len() as int;
    let (s, frozen) = frozen_commands(rt, commands, n);
    let cmds = frozen->Ok_0;
    let (u, made) = s.icb_created(true, n as usize);
    let icb = made->0;
    let e = encoded_to(u, icb, cmds, true, n);
    let t = graph_step(rt, commands, true).0;
    let all = crate::decode_icb::graph::tape_buffers(cmds, n);
    lemma_encoded_ops(u, icb, cmds, n);
    crate::runtime::lemma_taken_frame(e, all, all.len() as int);
    assert(t.blob == s.blob && t.ops == e.ops) by {
        lemma_commands_len(rt, commands, n);
    }
    lemma_commands_froze(rt, commands, n);
    lemma_froze_addressed(commands, cmds, s.ops, s.blob);
    lemma_commands_held(u, icb, cmds, n);
    let h = icb_of(e, icb)[i as usize];
    assert(tape_held_at(icb_of(e, icb), cmds, i)) by {
        reveal(tape_held);
    }
    assert(command_froze(commands[i], cmds[i], s.ops, s.blob));
    let b = cmds[i].binds[j];
    assert(froze(commands[i].binds[j], b, s.ops, s.blob));
    assert(starts(s.ops, u.ops)) by {
        reveal(starts);
    }
    crate::seen::lemma_starts_on(s.ops, u.ops, e.ops);
    assert(starts(s.blob, t.blob)) by {
        reveal(starts);
    }
    lemma_froze_on(commands[i].binds[j], b, s, t);
    assert(addressed(b));
    assert(icb_of(t, icb) == icb_of(e, icb));
}

proof fn lemma_commands_len(rt: RuntimeState, commands: Seq<CommandView>, n: int)
    requires
        0 <= n,
    ensures
        frozen_commands(rt, commands, n).1 matches Ok(r) ==> r.len() == n,
    decreases n,
{
    if n > 0 {
        lemma_commands_len(rt, commands, n - 1);
    }
}

proof fn lemma_encoded_ops(rt: RuntimeState, icb: u64, commands: Seq<CommandView>, n: int)
    ensures
        starts(rt.ops, encoded_to(rt, icb, commands, true, n).ops),
        encoded_to(rt, icb, commands, true, n).blob == rt.blob,
    decreases n,
{
    if n > 0 {
        lemma_encoded_ops(rt, icb, commands, n - 1);
        let s = encoded_to(rt, icb, commands, true, n - 1);
        let c = commands[n - 1];
        let r = s.with_op(DeviceOp::IcbReset { icb, at: (n - 1) as usize, pipeline: c.pipeline });
        lemma_buffers_ops(r, icb, (n - 1) as usize, c.binds, c.binds.len() as int);
        let t = encoded_to(rt, icb, commands, true, n);
        assert(starts(s.ops, r.ops)) by {
            reveal(starts);
        }
        let k = kernel_buffers(r, icb, (n - 1) as usize, c.binds, c.binds.len() as int);
        assert(starts(k.ops, t.ops)) by {
            reveal(starts);
        }
        crate::seen::lemma_starts_on(s.ops, r.ops, k.ops);
        crate::seen::lemma_starts_on(s.ops, k.ops, t.ops);
        crate::seen::lemma_starts_on(rt.ops, s.ops, t.ops);
    } else {
        reveal(starts);
    }
}

proof fn lemma_buffers_ops(rt: RuntimeState, icb: u64, at: usize, binds: Seq<BindView>, n: int)
    ensures
        starts(rt.ops, kernel_buffers(rt, icb, at, binds, n).ops),
        kernel_buffers(rt, icb, at, binds, n).blob == rt.blob,
    decreases n,
{
    reveal(starts);
    if n > 0 {
        lemma_buffers_ops(rt, icb, at, binds, n - 1);
    }
}

// ------------------------------------------------------------- recordings ---

proof fn lemma_slot_position(binds: Seq<BindView>, index: usize, i: int)
    requires
        0 <= i,
    ensures
        ({
            let at = slot_position(binds, index, i);
            &&& at >= 0 ==> i <= at < binds.len() && binds[at].slot() == index
            &&& at < 0 ==> forall|j: int|
                i <= j < binds.len() ==> (#[trigger] binds[j]).slot() != index
        }),
    decreases binds.len() - i,
{
    if i < binds.len() && binds[i].slot() != index {
        lemma_slot_position(binds, index, i + 1);
    }
}

/// A bind that is noted takes its slot, and every slot keeps one bind.
pub proof fn law_noted_binds_take_their_slots(binds: Seq<BindView>, bind: BindView)
    requires
        slots_once(binds),
    ensures
        slots_once(rebound(binds, bind)),
        rebound(binds, bind).contains(bind),
        forall|j: int|
            0 <= j < rebound(binds, bind).len() && (#[trigger] rebound(binds, bind)[j]).slot()
                == bind.slot() ==> rebound(binds, bind)[j] == bind,
{
    lemma_slot_position(binds, bind.slot(), 0);
    let at = slot_position(binds, bind.slot(), 0);
    let after = rebound(binds, bind);
    if 0 <= at < binds.len() {
        assert(after[at] == bind);
        assert forall|i: int, j: int| 0 <= i < j < after.len() implies (#[trigger] after[i]).slot()
            != (#[trigger] after[j]).slot() by {
            assert(binds[i].slot() != binds[j].slot());
        }
    } else {
        assert(after[after.len() - 1] == bind);
        assert forall|i: int, j: int| 0 <= i < j < after.len() implies (#[trigger] after[i]).slot()
            != (#[trigger] after[j]).slot() by {
            if j < binds.len() {
                assert(binds[i].slot() != binds[j].slot());
            } else {
                assert(binds[i].slot() != bind.slot());
            }
        }
    }
}

/// The address that a recording notes for a bind is the one that the live encode
/// put in the slot: that of the buffer's byte.
pub proof fn law_recordings_note_the_live_address(
    b: BinderState,
    buf: Storage,
    offset: usize,
    index: usize,
)
    requires
        b.capture is Some,
        b.bound_at(buf, offset, index).error is None,
    ensures
        ({
            let after = b.bound_at(buf, offset, index);
            let address = (buf.slab.address + offset) as u64;
            let noted = BindView::Buf { index, buf, byte_offset: offset, gpu_addr: address };
            &&& buf.slab.address + offset <= u64::MAX
            &&& after.ops == b.ops.push(DeviceOp::SetAddress { index, address })
            &&& after.capture is Some
            &&& after.capture->0.binds == rebound(b.capture->0.binds, noted)
            &&& addressed(noted)
        }),
{
}

// ----------------------------------------------------------------- tables ---

/// The slots of a table after the operations from `base` on.
pub open spec fn table_slots(rt: RuntimeState, base: int) -> Map<(u64, usize), u64> {
    seen(
        nothing(),
        rt.ops,
        rt.blob,
        rt.info.arena_address,
        base,
        rt.ops.len() as int,
    ).scene.slots
}

proof fn lemma_table_op(rt: RuntimeState, base: int, table: u64, index: usize, address: u64)
    requires
        0 <= base <= rt.ops.len(),
    ensures
        table_slots(rt.with_op(DeviceOp::SetTableAddress { table, index, address }), base)
            == table_slots(rt, base).insert((table, index), address),
{
    let op = DeviceOp::SetTableAddress { table, index, address };
    let more = rt.ops.push(op);
    assert(starts(rt.ops, more)) by {
        reveal(starts);
    }
    lemma_seen_local(
        nothing(),
        rt.ops,
        more,
        rt.blob,
        rt.info.arena_address,
        base,
        rt.ops.len() as int,
    );
    assert(more[more.len() - 1] == op);
}

/// A table that is filled for a command holds the device address of each of its
/// buffer binds in the bind's slot: what the live encode put there.
pub proof fn law_tables_hold_the_addresses(
    rt: RuntimeState,
    base: int,
    table: u64,
    binds: Seq<BindView>,
    n: int,
)
    requires
        slots_once(binds),
        0 <= n <= binds.len(),
        0 <= base <= rt.ops.len(),
    ensures
        ({
            let t = table_filled(rt, table, binds, n);
            &&& rt.ops.len() <= t.ops.len()
            &&& forall|j: int|
                0 <= j < n && #[trigger] binds[j] is Buf ==> table_slots(t, base).contains_key(
                    (table, binds[j].slot()),
                ) && table_slots(t, base)[(table, binds[j].slot())] == binds[j]->gpu_addr
        }),
    decreases n,
{
    if n > 0 {
        law_tables_hold_the_addresses(rt, base, table, binds, n - 1);
        let s = table_filled(rt, table, binds, n - 1);
        let t = table_filled(rt, table, binds, n);
        match binds[n - 1] {
            BindView::Buf { index, gpu_addr, .. } => {
                lemma_table_op(s, base, table, index, gpu_addr);
                assert forall|j: int| 0 <= j < n && #[trigger] binds[j] is Buf implies table_slots(
                    t,
                    base,
                ).contains_key((table, binds[j].slot())) && table_slots(t, base)[(
                    table,
                    binds[j].slot(),
                )] == binds[j]->gpu_addr by {
                    if j < n - 1 {
                        assert(binds[j].slot() != binds[n - 1].slot());
                    }
                }
            },
            BindView::Immediate { .. } => {},
        }
    }
}

/// A frozen command and a table that is filled for the same command lead to the
/// same address in every slot.
pub proof fn law_frozen_and_tabled_agree(
    h: Held,
    c: CommandView,
    rt: RuntimeState,
    table: u64,
    j: int,
)
    requires
        command_held(h, c),
        slots_once(c.binds),
        0 <= j < c.binds.len(),
        c.binds[j] is Buf,
        addressed(c.binds[j]),
    ensures
        ({
            let t = table_filled(rt, table, c.binds, c.binds.len() as int);
            let slot = c.binds[j].slot();
            let (slab, offset) = h.buffers[slot];
            &&& slab == c.binds[j]->buf.slab.id
            &&& (c.binds[j]->buf.slab.address + offset) % 0x1_0000_0000_0000_0000 == table_slots(
                t,
                rt.ops.len() as int,
            )[(table, slot)]
        }),
{
    law_tables_hold_the_addresses(
        rt,
        rt.ops.len() as int,
        table,
        c.binds,
        c.binds.len() as int,
    );
}

// ----------------------------------------------------------------- replays ---

/// What a replay remembers of the slots is what sits in them.
pub open spec fn remembers(s: ReplayState, full: Seq<u8>, base: int) -> bool {
    let slots = shown(s.binder, full, base).scene.slots;
    &&& s.slots.len() == crate::device::ARGUMENT_TABLE_MAX_BUFFERS
    &&& forall|i: int|
        0 <= i < s.slots.len() && (#[trigger] s.slots[i]) is Some ==> slots.contains_key(
            (crate::device::PERSISTENT_TABLE, i as usize),
        ) && slots[(crate::device::PERSISTENT_TABLE, i as usize)] == s.slots[i]->0
}

/// A buffer bind that is replayed leaves the recorded address in its slot, whether
/// it is set anew or found to be there.
pub proof fn law_replays_put_the_address(
    s: ReplayState,
    address: u64,
    index: usize,
    full: Seq<u8>,
    base: int,
)
    requires
        0 <= base <= s.binder.ops.len(),
        remembers(s, full, base),
        s.bound_address(address, index).binder.error is None,
        s.binder.error is None,
    ensures
        ({
            let t = s.bound_address(address, index);
            let slots = shown(t.binder, full, base).scene.slots;
            let key = (crate::device::PERSISTENT_TABLE, index);
            &&& remembers(t, full, base)
            &&& slots.contains_key(key)
            &&& slots[key] == address
        }),
{
    let op = DeviceOp::SetAddress { index, address };
    crate::seen::lemma_shown_op(s.binder, op, full, base);
    let t = s.bound_address(address, index);
    assert(index < crate::device::ARGUMENT_TABLE_MAX_BUFFERS);
    assert forall|i: int| 0 <= i < t.slots.len() && (#[trigger] t.slots[i]) is Some implies shown(
        t.binder,
        full,
        base,
    ).scene.slots.contains_key((crate::device::PERSISTENT_TABLE, i as usize)) && shown(
        t.binder,
        full,
        base,
    ).scene.slots[(crate::device::PERSISTENT_TABLE, i as usize)] == t.slots[i]->0 by {
        if i != index {
            assert(t.slots[i] == s.slots[i]);
        }
    }
}

} // verus!
