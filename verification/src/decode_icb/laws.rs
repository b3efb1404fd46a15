//! What replay promises of whole tapes.

use vstd::prelude::*;

use crate::capture::{BindView, CommandView};
use crate::decode_icb::graph::GraphView;
use crate::decode_icb::replay::{
    counted_between, law_ranges_end_at_markers, raised, replayed_to, span_end, span_run,
    spans_from, ReplayOpts, ReplayState,
};
use crate::decode_icb::tape::{fingerprint, insert_slot, slots_to};
use crate::device::{DeviceOp, MtlSize, Pipeline};
use crate::dispatch::BinderState;

verus! {

/// The operation makes the device work, or orders its work.
pub open spec fn is_work(op: DeviceOp) -> bool {
    op is Dispatch || op is ExecuteIcb || op is Barrier
}

/// The work among operations, in order.
pub open spec fn work_of(ops: Seq<DeviceOp>) -> Seq<DeviceOp>
    decreases ops.len(),
{
    if ops.len() == 0 {
        Seq::empty()
    } else if is_work(ops.last()) {
        work_of(ops.drop_last()).push(ops.last())
    } else {
        work_of(ops.drop_last())
    }
}

/// The barrier a marker stands for.
pub open spec fn marker_work(marked: bool) -> Seq<DeviceOp> {
    if marked {
        seq![DeviceOp::Barrier]
    } else {
        Seq::empty()
    }
}

/// The work of one command: its dispatch, or its run from the ICB, and its
/// marker.
pub open spec fn command_work(c: CommandView, at: int, o: ReplayOpts) -> Seq<DeviceOp> {
    seq![
        if o.freeze_binds || (o.use_icb_exec && c.pipeline.icb) {
            DeviceOp::ExecuteIcb { icb: o.icb, start: at as u64, count: 1 }
        } else {
            DeviceOp::Dispatch { groups: c.threadgroups, threads: c.threads_per_tg }
        },
    ] + marker_work(c.barrier_after)
}

/// The work of the first `n` commands.
pub open spec fn tape_work(g: GraphView, exec: bool, n: int) -> Seq<DeviceOp>
    decreases n,
{
    if n <= 0 {
        Seq::empty()
    } else {
        tape_work(g, exec, n - 1) + command_work(g.commands[n - 1], n - 1, g.opts(exec))
    }
}

/// The work of the ranges from command `i` on: one run each, and its marker.
pub open spec fn range_work(g: GraphView, i: int) -> Seq<DeviceOp>
    decreases g.commands.len() - i,
{
    if i < 0 || i >= g.commands.len() {
        Seq::empty()
    } else {
        proof {
            law_ranges_end_at_markers(g.commands, i);
        }
        let j = span_end(g.commands, i);
        seq![DeviceOp::ExecuteIcb { icb: g.icb, start: i as u64, count: (j - i) as u64 }]
            + marker_work(g.commands[j - 1].barrier_after) + range_work(g, j)
    }
}

proof fn lemma_work_push(ops: Seq<DeviceOp>, op: DeviceOp)
    ensures
        work_of(ops.push(op)) == if is_work(op) {
            work_of(ops).push(op)
        } else {
            work_of(ops)
        },
{
    assert(ops.push(op).drop_last() =~= ops);
}

/// From `a` to `b` no work was added, a failure stays, and the barrier mode is
/// the same.
spec fn calm(a: BinderState, b: BinderState) -> bool {
    &&& b.skip_auto == a.skip_auto
    &&& b.error is None ==> a.error is None && work_of(b.ops) == work_of(a.ops)
}

proof fn lemma_bind_calm(b: BinderState, address: u64, index: usize)
    ensures
        calm(b, b.bound_address(address, index)),
{
    lemma_work_push(b.ops, DeviceOp::SetAddress { index, address });
}

proof fn lemma_written_calm(b: BinderState, bytes: Seq<u8>)
    ensures
        calm(b, b.written(bytes).0),
{
    let w = b.written(bytes).0;
    if w.error is None {
        lemma_work_push(b.ops, w.ops.last());
        assert(w.ops =~= b.ops.push(w.ops.last()));
    }
}

proof fn lemma_bytes_calm(b: BinderState, bytes: Seq<u8>, index: usize)
    ensures
        calm(b, b.bound_bytes(bytes, index).0),
{
    let s = b.indexed(index);
    lemma_written_calm(s, bytes);
    let (w, address) = s.written(bytes);
    lemma_bind_calm(w, address, index);
}

proof fn lemma_bound_calm(s: ReplayState, binds: Seq<BindView>, n: int)
    ensures
        calm(s.binder, s.bound_to(binds, n).binder),
    decreases n,
{
    if n > 0 {
        lemma_bound_calm(s, binds, n - 1);
        let t = s.bound_to(binds, n - 1);
        match binds[n - 1] {
            BindView::Buf { index, gpu_addr, .. } => {
                lemma_bind_calm(t.binder, gpu_addr, index);
            },
            BindView::Immediate { index, bytes } => {
                lemma_bytes_calm(t.binder, bytes, index);
            },
        }
    }
}

proof fn lemma_tabled_calm(s: ReplayState, table: u64, binds: Seq<BindView>, n: int)
    ensures
        calm(s.binder, s.tabled_to(table, binds, n).binder),
    decreases n,
{
    if n > 0 {
        lemma_tabled_calm(s, table, binds, n - 1);
        let t = s.tabled_to(table, binds, n - 1);
        match binds[n - 1] {
            BindView::Buf { .. } => {},
            BindView::Immediate { index, bytes } => {
                lemma_written_calm(t.binder, bytes);
                let (w, address) = t.binder.written(bytes);
                lemma_work_push(w.ops, DeviceOp::SetTableAddress { table, index, address });
            },
        }
    }
}

proof fn lemma_counted_binder(s: ReplayState, binds: Seq<BindView>, n: int)
    ensures
        s.counted(binds, n).binder == s.binder,
        s.counted(binds, n).slots == s.slots,
        s.counted(binds, n).tally.set_address == s.tally.set_address,
        s.counted(binds, n).tally.set_table == s.tally.set_table,
        s.counted(binds, n).tally.icb_calls == s.tally.icb_calls,
        s.counted(binds, n).tally.icb_commands == s.tally.icb_commands,
    decreases n,
{
    if n > 0 {
        lemma_counted_binder(s, binds, n - 1);
    }
}

proof fn lemma_between_binder(s: ReplayState, commands: Seq<CommandView>, i: int, j: int)
    ensures
        counted_between(s, commands, i, j).binder == s.binder,
        counted_between(s, commands, i, j).slots == s.slots,
        counted_between(s, commands, i, j).tally.set_address == s.tally.set_address,
        counted_between(s, commands, i, j).tally.set_table == s.tally.set_table,
        counted_between(s, commands, i, j).tally.icb_calls == s.tally.icb_calls,
        counted_between(s, commands, i, j).tally.icb_commands == s.tally.icb_commands,
    decreases j - i,
{
    if i < j {
        lemma_between_binder(s, commands, i, j - 1);
        let binds = commands[j - 1].binds;
        lemma_counted_binder(
            counted_between(s, commands, i, j - 1),
            binds,
            binds.len() as int,
        );
    }
}

proof fn lemma_ran_work(s: ReplayState, o: ReplayOpts, at: usize, count: int, inherit: bool)
    requires
        s.binder.skip_auto,
        s.ran(o, at, count, inherit).binder.error is None,
    ensures
        s.binder.error is None,
        s.ran(o, at, count, inherit).binder.skip_auto,
        work_of(s.ran(o, at, count, inherit).binder.ops) == work_of(s.binder.ops).push(
            DeviceOp::ExecuteIcb { icb: o.icb, start: at as u64, count: count as u64 },
        ),
{
    let t = if inherit {
        s.binder.with_table()
    } else {
        s.binder
    };
    lemma_work_push(
        s.binder.ops,
        DeviceOp::UseTable { table: crate::device::PERSISTENT_TABLE },
    );
    lemma_work_push(
        t.ops,
        DeviceOp::ExecuteIcb { icb: o.icb, start: at as u64, count: count as u64 },
    );
}

proof fn lemma_marked_work(s: ReplayState, marked: bool)
    requires
        s.marked(marked).binder.error is None,
    ensures
        s.binder.error is None,
        s.marked(marked).binder.skip_auto == s.binder.skip_auto,
        work_of(s.marked(marked).binder.ops) == work_of(s.binder.ops) + marker_work(marked),
{
    lemma_work_push(s.binder.ops, DeviceOp::Barrier);
    assert(work_of(s.binder.ops).push(DeviceOp::Barrier) =~= work_of(s.binder.ops) + seq![
        DeviceOp::Barrier,
    ]);
    assert(work_of(s.binder.ops) + Seq::<DeviceOp>::empty() =~= work_of(s.binder.ops));
}

/// After a command's arguments were set, by a table or slot by slot.
spec fn argued(p: ReplayState, c: CommandView, table: Option<u64>) -> ReplayState {
    match table {
        Some(table) => p.adopted(table).tabled_to(table, c.binds, c.binds.len() as int),
        None => p.bound_to(c.binds, c.binds.len() as int),
    }
}

/// After a command's threadgroup memory was set too.
spec fn readied(p: ReplayState, c: CommandView, table: Option<u64>) -> ReplayState {
    let bound = argued(p, c, table);
    match c.tg_mem {
        Some((index, length)) => ReplayState {
            binder: bound.binder.with_tg_mem(index, length),
            ..bound
        },
        None => bound,
    }
}

proof fn lemma_argued_calm(p: ReplayState, c: CommandView, table: Option<u64>)
    ensures
        calm(p.binder, argued(p, c, table).binder),
{
    let n = c.binds.len() as int;
    match table {
        Some(table) => {
            lemma_work_push(p.binder.ops, DeviceOp::UseTable { table });
            assert(calm(p.binder, p.adopted(table).binder));
            lemma_tabled_calm(p.adopted(table), table, c.binds, n);
        },
        None => {
            lemma_bound_calm(p, c.binds, n);
        },
    }
}

proof fn lemma_tg_mem_calm(b: BinderState, index: usize, length: usize)
    ensures
        calm(b, b.with_tg_mem(index, length)),
{
    lemma_work_push(b.indexed(index).ops, DeviceOp::ThreadgroupMemory { index, length });
}

proof fn lemma_readied_calm(p: ReplayState, c: CommandView, table: Option<u64>)
    ensures
        calm(p.binder, readied(p, c, table).binder),
{
    lemma_argued_calm(p, c, table);
    match c.tg_mem {
        Some((index, length)) => {
            lemma_tg_mem_calm(argued(p, c, table).binder, index, length);
        },
        None => {},
    }
}

proof fn lemma_dispatched_work(b: BinderState, groups: MtlSize, threads: MtlSize)
    requires
        b.skip_auto,
        b.dispatched(groups, threads).error is None,
    ensures
        b.error is None,
        b.dispatched(groups, threads).skip_auto,
        work_of(b.dispatched(groups, threads).ops) == work_of(b.ops).push(
            DeviceOp::Dispatch { groups, threads },
        ),
{
    lemma_work_push(b.ops, DeviceOp::UseTable { table: crate::device::PERSISTENT_TABLE });
    lemma_work_push(b.with_table().ops, DeviceOp::Dispatch { groups, threads });
}

proof fn lemma_piped_calm(b: BinderState, p: Pipeline)
    ensures
        calm(b, b.piped(p)),
{
    lemma_work_push(b.ops, DeviceOp::SetPipeline { pipeline: p });
}

/// The operation that carries a command out.
spec fn command_op(c: CommandView, at: usize, o: ReplayOpts) -> DeviceOp {
    if o.freeze_binds || (o.use_icb_exec && c.pipeline.icb) {
        DeviceOp::ExecuteIcb { icb: o.icb, start: at as u64, count: 1 }
    } else {
        DeviceOp::Dispatch { groups: c.threadgroups, threads: c.threads_per_tg }
    }
}

/// A replayed command before its marker.
spec fn carried(p: ReplayState, c: CommandView, at: usize, table: Option<u64>, o: ReplayOpts) -> ReplayState {
    if o.freeze_binds {
        p.ran(o, at, 1, false).counted(c.binds, c.binds.len() as int)
    } else {
        let ready = readied(p, c, table);
        if o.use_icb_exec && c.pipeline.icb {
            ready.ran(o, at, 1, true)
        } else {
            ReplayState {
                binder: ready.binder.dispatched(c.threadgroups, c.threads_per_tg),
                ..ready
            }
        }
    }
}

proof fn lemma_carried_work(
    p: ReplayState,
    c: CommandView,
    at: usize,
    table: Option<u64>,
    o: ReplayOpts,
)
    requires
        p.binder.skip_auto,
        carried(p, c, at, table, o).binder.error is None,
    ensures
        p.binder.error is None,
        carried(p, c, at, table, o).binder.skip_auto,
        work_of(carried(p, c, at, table, o).binder.ops) == work_of(p.binder.ops).push(
            command_op(c, at, o),
        ),
{
    if o.freeze_binds {
        lemma_counted_binder(p.ran(o, at, 1, false), c.binds, c.binds.len() as int);
        lemma_ran_work(p, o, at, 1, false);
    } else {
        lemma_readied_calm(p, c, table);
        let ready = readied(p, c, table);
        if o.use_icb_exec && c.pipeline.icb {
            lemma_ran_work(ready, o, at, 1, true);
        } else {
            lemma_dispatched_work(ready.binder, c.threadgroups, c.threads_per_tg);
        }
    }
}

proof fn lemma_command_work(
    s: ReplayState,
    c: CommandView,
    at: usize,
    table: Option<u64>,
    o: ReplayOpts,
)
    requires
        s.binder.skip_auto,
        s.replayed(c, at, table, o).binder.error is None,
    ensures
        s.binder.error is None,
        s.replayed(c, at, table, o).binder.skip_auto,
        work_of(s.replayed(c, at, table, o).binder.ops) == work_of(s.binder.ops) + command_work(
            c,
            at as int,
            o,
        ),
{
    let p = ReplayState { binder: s.binder.piped(c.pipeline), ..s };
    let t = carried(p, c, at, table, o);
    let before = work_of(s.binder.ops);
    let op = command_op(c, at, o);
    assert(s.replayed(c, at, table, o) == t.marked(c.barrier_after));
    lemma_piped_calm(s.binder, c.pipeline);
    lemma_marked_work(t, c.barrier_after);
    lemma_carried_work(p, c, at, table, o);
    assert(before.push(op) + marker_work(c.barrier_after) =~= before + (seq![op] + marker_work(
        c.barrier_after,
    )));
}

proof fn lemma_replay_skips(s: ReplayState, g: GraphView, exec: bool, n: int)
    requires
        s.binder.skip_auto,
    ensures
        replayed_to(s, g, exec, n).binder.skip_auto,
    decreases n,
{
    if n > 0 {
        lemma_replay_skips(s, g, exec, n - 1);
        let t = replayed_to(s, g, exec, n - 1);
        let c = g.commands[n - 1];
        let p = ReplayState { binder: t.binder.piped(c.pipeline), ..t };
        lemma_bound_calm(p, c.binds, c.binds.len() as int);
        lemma_counted_binder(
            p.ran(g.opts(exec), (n - 1) as usize, 1, false),
            c.binds,
            c.binds.len() as int,
        );
        match g.table(n - 1) {
            Some(table) => {
                lemma_tabled_calm(p.adopted(table), table, c.binds, c.binds.len() as int);
            },
            None => {},
        }
    }
}

/// A replay does the work of its tape: one dispatch or one run per command, in
/// order, each followed by a barrier exactly where the tape has a marker.
#[verifier::rlimit(40)]
pub proof fn law_replay_does_the_tape(s: ReplayState, g: GraphView, exec: bool, n: int)
    requires
        0 <= n <= g.commands.len() <= usize::MAX,
        s.binder.skip_auto,
        replayed_to(s, g, exec, n).binder.error is None,
    ensures
        s.binder.error is None,
        work_of(replayed_to(s, g, exec, n).binder.ops) == work_of(s.binder.ops) + tape_work(
            g,
            exec,
            n,
        ),
    decreases n,
{
    if n > 0 {
        lemma_replay_skips(s, g, exec, n - 1);
        let t = replayed_to(s, g, exec, n - 1);
        lemma_command_work(
            t,
            g.commands[n - 1],
            (n - 1) as usize,
            g.table(n - 1),
            g.opts(exec),
        );
        law_replay_does_the_tape(s, g, exec, n - 1);
        assert(work_of(s.binder.ops) + tape_work(g, exec, n) =~= (work_of(s.binder.ops)
            + tape_work(g, exec, n - 1)) + command_work(g.commands[n - 1], n - 1, g.opts(exec)));
    } else {
        assert(work_of(s.binder.ops) + tape_work(g, exec, n) =~= work_of(s.binder.ops));
    }
}

proof fn lemma_span_work(s: ReplayState, g: GraphView, i: int, j: int)
    requires
        0 <= i < j <= g.commands.len() <= usize::MAX,
        s.binder.skip_auto,
    ensures
        span_run(s, g, i, j).binder.skip_auto,
        span_run(s, g, i, j).binder.error is None ==> {
            &&& s.binder.error is None
            &&& work_of(span_run(s, g, i, j).binder.ops) == work_of(s.binder.ops) + (seq![
                DeviceOp::ExecuteIcb { icb: g.icb, start: i as u64, count: (j - i) as u64 },
            ] + marker_work(g.commands[j - 1].barrier_after))
        },
{
    let op = DeviceOp::ExecuteIcb { icb: g.icb, start: i as u64, count: (j - i) as u64 };
    let marked = g.commands[j - 1].barrier_after;
    let p = ReplayState { binder: s.binder.piped(g.commands[i].pipeline), ..s };
    let r = p.ran(g.opts(true), i as usize, j - i, false);
    let t = counted_between(r, g.commands, i, j);
    lemma_between_binder(r, g.commands, i, j);
    lemma_work_push(s.binder.ops, DeviceOp::SetPipeline { pipeline: g.commands[i].pipeline });
    if t.marked(marked).binder.error is None {
        lemma_marked_work(t, marked);
        lemma_ran_work(p, g.opts(true), i as usize, j - i, false);
        assert(work_of(s.binder.ops).push(op) + marker_work(marked) =~= work_of(s.binder.ops) + (
        seq![op] + marker_work(marked)));
    }
}

/// A ranged replay runs each range once, in order, followed by a barrier
/// exactly where its last command has a marker.
pub proof fn law_ranged_replay_does_the_ranges(s: ReplayState, g: GraphView, i: int)
    requires
        0 <= i <= g.commands.len() <= usize::MAX,
        s.binder.skip_auto,
        spans_from(s, g, i).binder.error is None,
    ensures
        s.binder.error is None,
        work_of(spans_from(s, g, i).binder.ops) == work_of(s.binder.ops) + range_work(g, i),
    decreases g.commands.len() - i,
{
    if i < g.commands.len() {
        law_ranges_end_at_markers(g.commands, i);
        let j = span_end(g.commands, i);
        lemma_span_work(s, g, i, j);
        law_ranged_replay_does_the_ranges(span_run(s, g, i, j), g, j);
        assert(work_of(s.binder.ops) + range_work(g, i) =~= work_of(s.binder.ops) + (seq![
            DeviceOp::ExecuteIcb { icb: g.icb, start: i as u64, count: (j - i) as u64 },
        ] + marker_work(g.commands[j - 1].barrier_after)) + range_work(g, j));
    } else {
        assert(work_of(s.binder.ops) + range_work(g, i) =~= work_of(s.binder.ops));
    }
}

/// The ranges cover the tape: a ranged replay accounts for every command once.
pub proof fn law_ranges_cover_the_tape(s: ReplayState, g: GraphView, i: int)
    requires
        0 <= i <= g.commands.len() <= usize::MAX,
    ensures
        spans_from(s, g, i).tally.icb_commands == raised(
            s.tally.icb_commands,
            g.commands.len() - i,
        ),
    decreases g.commands.len() - i,
{
    if i < g.commands.len() {
        law_ranges_end_at_markers(g.commands, i);
        let j = span_end(g.commands, i);
        let p = ReplayState { binder: s.binder.piped(g.commands[i].pipeline), ..s };
        lemma_between_binder(p.ran(g.opts(true), i as usize, j - i, false), g.commands, i, j);
        law_ranges_cover_the_tape(span_run(s, g, i, j), g, j);
    }
}

/// How many ranges end from command `i` on: one at every marker, and one with the
/// tape.
pub open spec fn ranges_from(commands: Seq<CommandView>, i: int) -> int
    decreases commands.len() - i,
{
    if i >= commands.len() {
        0
    } else if commands[i].barrier_after || i + 1 == commands.len() {
        1 + ranges_from(commands, i + 1)
    } else {
        ranges_from(commands, i + 1)
    }
}

proof fn lemma_one_range(commands: Seq<CommandView>, i: int)
    requires
        0 <= i < commands.len(),
    ensures
        ranges_from(commands, i) == 1 + ranges_from(commands, span_end(commands, i)),
        ranges_from(commands, i) <= commands.len() - i,
        ranges_from(commands, span_end(commands, i)) >= 0,
    decreases commands.len() - i,
{
    reveal_with_fuel(span_end, 2);
    if i + 1 < commands.len() {
        lemma_one_range(commands, i + 1);
    }
}

/// A ranged replay runs as many ranges as the tape has: one up to every marker,
/// and one behind the last.
pub proof fn law_ranges_are_counted(s: ReplayState, g: GraphView, i: int)
    requires
        0 <= i <= g.commands.len() <= usize::MAX,
    ensures
        spans_from(s, g, i).tally.icb_calls == raised(
            s.tally.icb_calls,
            ranges_from(g.commands, i),
        ),
    decreases g.commands.len() - i,
{
    if i < g.commands.len() {
        law_ranges_end_at_markers(g.commands, i);
        lemma_one_range(g.commands, i);
        let j = span_end(g.commands, i);
        let p = ReplayState { binder: s.binder.piped(g.commands[i].pipeline), ..s };
        lemma_between_binder(p.ran(g.opts(true), i as usize, j - i, false), g.commands, i, j);
        law_ranges_are_counted(span_run(s, g, i, j), g, j);
    }
}

/// With frozen binds a replay sets no slot, switches no table, and counts one
/// run per command.
pub proof fn law_frozen_replay_binds_nothing(s: ReplayState, g: GraphView, exec: bool, n: int)
    requires
        g.freeze,
        0 <= n,
    ensures
        ({
            let r = replayed_to(s, g, exec, n);
            &&& r.tally.set_address == s.tally.set_address
            &&& r.tally.set_table == s.tally.set_table
            &&& r.tally.icb_calls == raised(s.tally.icb_calls, n)
            &&& r.tally.icb_commands == raised(s.tally.icb_commands, n)
            &&& r.binder.latched == s.binder.latched
            &&& r.binder.table == s.binder.table
        }),
    decreases n,
{
    if n > 0 {
        law_frozen_replay_binds_nothing(s, g, exec, n - 1);
        let t = replayed_to(s, g, exec, n - 1);
        let c = g.commands[n - 1];
        let p = ReplayState { binder: t.binder.piped(c.pipeline), ..t };
        lemma_counted_binder(
            p.ran(g.opts(exec), (n - 1) as usize, 1, false),
            c.binds,
            c.binds.len() as int,
        );
    }
}

/// So does a ranged one.
pub proof fn law_ranged_replay_binds_nothing(s: ReplayState, g: GraphView, i: int)
    requires
        0 <= i <= g.commands.len() <= usize::MAX,
    ensures
        ({
            let r = spans_from(s, g, i);
            &&& r.tally.set_address == s.tally.set_address
            &&& r.tally.set_table == s.tally.set_table
            &&& r.binder.latched == s.binder.latched
            &&& r.binder.table == s.binder.table
        }),
    decreases g.commands.len() - i,
{
    if i < g.commands.len() {
        law_ranges_end_at_markers(g.commands, i);
        let j = span_end(g.commands, i);
        let p = ReplayState { binder: s.binder.piped(g.commands[i].pipeline), ..s };
        lemma_between_binder(p.ran(g.opts(true), i as usize, j - i, false), g.commands, i, j);
        law_ranged_replay_binds_nothing(span_run(s, g, i, j), g, j);
    }
}

// --------------------------------------------------------- shared tables ---

spec fn ordered(s: Seq<(usize, u64)>) -> bool {
    forall|i: int, j: int| 0 <= i < j < s.len() ==> s[i].0 <= s[j].0
}

/// Where [`insert_slot`] puts an entry.
spec fn insert_at(s: Seq<(usize, u64)>, x: (usize, u64), n: int) -> int
    decreases n,
{
    if n <= 0 || s[n - 1].0 <= x.0 {
        n
    } else {
        insert_at(s, x, n - 1)
    }
}

proof fn lemma_insert_at(s: Seq<(usize, u64)>, x: (usize, u64), n: int)
    requires
        0 <= n <= s.len(),
        ordered(s),
    ensures
        0 <= insert_at(s, x, n) <= n,
        insert_slot(s, x, n) == s.insert(insert_at(s, x, n), x),
        forall|i: int| 0 <= i < insert_at(s, x, n) ==> (#[trigger] s[i]).0 <= x.0,
        forall|i: int| insert_at(s, x, n) <= i < n ==> (#[trigger] s[i]).0 > x.0,
    decreases n,
{
    if n > 0 && s[n - 1].0 > x.0 {
        lemma_insert_at(s, x, n - 1);
    }
}

proof fn lemma_insert_ordered(s: Seq<(usize, u64)>, x: (usize, u64))
    requires
        ordered(s),
    ensures
        ordered(insert_slot(s, x, s.len() as int)),
        insert_slot(s, x, s.len() as int).len() == s.len() + 1,
{
    lemma_insert_at(s, x, s.len() as int);
}

proof fn lemma_inserts_commute(s: Seq<(usize, u64)>, x: (usize, u64), y: (usize, u64))
    requires
        ordered(s),
        x.0 < y.0,
    ensures
        ({
            let sx = insert_slot(s, x, s.len() as int);
            let sy = insert_slot(s, y, s.len() as int);
            insert_slot(sx, y, sx.len() as int) == insert_slot(sy, x, sy.len() as int)
        }),
{
    let n = s.len() as int;
    let sx = insert_slot(s, x, n);
    let sy = insert_slot(s, y, n);
    lemma_insert_at(s, x, n);
    lemma_insert_at(s, y, n);
    lemma_insert_ordered(s, x);
    lemma_insert_ordered(s, y);
    lemma_insert_at(sx, y, sx.len() as int);
    lemma_insert_at(sy, x, sy.len() as int);
    let px = insert_at(s, x, n);
    let py = insert_at(s, y, n);
    let qy = insert_at(sx, y, sx.len() as int);
    let qx = insert_at(sy, x, sy.len() as int);
    assert(px <= py) by {
        if py < px {
            assert(s[py].0 <= x.0);
            assert(s[py].0 > y.0);
        }
    }
    assert(qy == py + 1) by {
        if qy < py + 1 {
            assert(sx[qy].0 > y.0);
            if qy < px {
                assert(sx[qy] == s[qy]);
            } else if qy == px {
                assert(sx[qy] == x);
            } else {
                assert(sx[qy] == s[qy - 1]);
            }
        } else if qy > py + 1 {
            assert(sx[py + 1] == s[py]);
            assert(sx[py + 1].0 <= y.0);
        }
    }
    assert(qx == px) by {
        if qx < px {
            assert(sy[qx] == s[qx]);
        } else if qx > px {
            assert(sy[px].0 <= x.0);
            if px < py {
                assert(sy[px] == s[px]);
            } else {
                assert(sy[px] == y);
            }
        }
    }
    assert(sx.insert(qy, y) =~= sy.insert(qx, x));
}

proof fn lemma_slots_ordered(binds: Seq<BindView>, n: int)
    requires
        0 <= n <= binds.len(),
    ensures
        ordered(slots_to(binds, n)),
    decreases n,
{
    if n > 0 {
        lemma_slots_ordered(binds, n - 1);
        match binds[n - 1] {
            BindView::Buf { index, gpu_addr, .. } => {
                lemma_insert_ordered(slots_to(binds, n - 1), (index, gpu_addr));
            },
            BindView::Immediate { .. } => {},
        }
    }
}

proof fn lemma_slots_agree(a: Seq<BindView>, b: Seq<BindView>, m: int, n: int)
    requires
        0 <= m <= n <= a.len(),
        a.len() == b.len(),
        slots_to(a, m) == slots_to(b, m),
        forall|i: int| m <= i < n ==> a[i] == b[i],
    ensures
        slots_to(a, n) == slots_to(b, n),
    decreases n,
{
    if m < n {
        lemma_slots_agree(a, b, m, n - 1);
    }
}

/// The order in which slots were bound does not matter to the table key:
/// swapping two neighbouring binds of different slots keeps it. So commands
/// that bind the same buffers to the same slots share a table.
pub proof fn law_bind_order_keeps_the_table(binds: Seq<BindView>, i: int)
    requires
        0 <= i,
        i + 1 < binds.len(),
        binds[i].slot() != binds[i + 1].slot(),
    ensures
        fingerprint(binds.update(i, binds[i + 1]).update(i + 1, binds[i])) == fingerprint(binds),
{
    let swapped = binds.update(i, binds[i + 1]).update(i + 1, binds[i]);
    lemma_slots_agree(binds, swapped, 0, i);
    lemma_slots_ordered(binds, i);
    let s = slots_to(binds, i);
    reveal_with_fuel(slots_to, 3);
    match (binds[i], binds[i + 1]) {
        (
            BindView::Buf { index: ix, gpu_addr: ax, .. },
            BindView::Buf { index: iy, gpu_addr: ay, .. },
        ) => {
            if ix < iy {
                lemma_inserts_commute(s, (ix, ax), (iy, ay));
            } else {
                lemma_inserts_commute(s, (iy, ay), (ix, ax));
            }
        },
        _ => {},
    }
    assert(slots_to(binds, i + 2) == slots_to(swapped, i + 2));
    lemma_slots_agree(binds, swapped, i + 2, binds.len() as int);
}

} // verus!
