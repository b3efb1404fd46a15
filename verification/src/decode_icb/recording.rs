//! Building a graph and replaying it neither begin nor end a recording.

use vstd::prelude::*;

use crate::capture::{BindView, CommandView};
use crate::cb_replay::{graph_run, graph_tried, replay_flag_read, CbSlot, LedgerView};
use crate::decode_icb::graph::{
    chain_filled, chain_step, chain_storage, command_encoded, encoded_to, frozen_binds,
    frozen_commands, graph_step, graph_tables, hop, kernel_buffers, no_tally, table_filled,
    tables_built, GraphView, Tally,
};
use crate::decode_icb::replay::{
    coarsened, counted_between, execute_step, law_ranges_end_at_markers, lone, passed, probed,
    range_flags_read, replayed_to, runs_ranges, span_end, span_run, spans_from, triaged, tuned,
    ReplayOpts, ReplayState,
};
use crate::device::DeviceOp;
use crate::dispatch::BinderState;
use crate::runtime::recording::{
    group_recording, lemma_encoded_records, lemma_scopes_note, lemma_unscoped_records, noting,
    recording,
};
use crate::state::RuntimeState;

verus! {

// --------------------------------------------------------------- building ---

proof fn lemma_frozen_binds_record(rt: RuntimeState, binds: Seq<BindView>, n: int)
    ensures
        recording(frozen_binds(rt, binds, n).0) == recording(rt),
    decreases n,
{
    broadcast use group_recording;

    if n > 0 {
        lemma_frozen_binds_record(rt, binds, n - 1);
    }
}

proof fn lemma_frozen_commands_record(rt: RuntimeState, commands: Seq<CommandView>, n: int)
    ensures
        recording(frozen_commands(rt, commands, n).0) == recording(rt),
    decreases n,
{
    if n > 0 {
        lemma_frozen_commands_record(rt, commands, n - 1);
        let s = frozen_commands(rt, commands, n - 1).0;
        let binds = commands[n - 1].binds;
        lemma_frozen_binds_record(s, binds, binds.len() as int);
    }
}

proof fn lemma_filled_records(rt: RuntimeState, table: u64, binds: Seq<BindView>, n: int)
    ensures
        recording(table_filled(rt, table, binds, n)) == recording(rt),
    decreases n,
{
    if n > 0 {
        lemma_filled_records(rt, table, binds, n - 1);
    }
}

proof fn lemma_tabled_records(rt: RuntimeState, commands: Seq<CommandView>, n: int)
    ensures
        recording(tables_built(rt, commands, n).0) == recording(rt),
    decreases n,
{
    if n > 0 {
        lemma_tabled_records(rt, commands, n - 1);
        let (s, r) = tables_built(rt, commands, n - 1);
        let binds = commands[n - 1].binds;
        let (u, made) = s.table_created();
        if made is Some {
            lemma_filled_records(u, made->0, binds, binds.len() as int);
        }
    }
}

proof fn lemma_kernel_buffers_record(
    rt: RuntimeState,
    icb: u64,
    at: usize,
    binds: Seq<BindView>,
    n: int,
)
    ensures
        recording(kernel_buffers(rt, icb, at, binds, n)) == recording(rt),
    decreases n,
{
    if n > 0 {
        lemma_kernel_buffers_record(rt, icb, at, binds, n - 1);
    }
}

proof fn lemma_encoded_commands_record(
    rt: RuntimeState,
    icb: u64,
    commands: Seq<CommandView>,
    freeze: bool,
    n: int,
)
    ensures
        recording(encoded_to(rt, icb, commands, freeze, n)) == recording(rt),
    decreases n,
{
    if n > 0 {
        lemma_encoded_commands_record(rt, icb, commands, freeze, n - 1);
        let s = encoded_to(rt, icb, commands, freeze, n - 1);
        let c = commands[n - 1];
        let at = (n - 1) as usize;
        let t = s.with_op(DeviceOp::IcbReset { icb, at, pipeline: c.pipeline });
        lemma_kernel_buffers_record(t, icb, at, c.binds, c.binds.len() as int);
        assert(recording(command_encoded(s, icb, at, c, freeze)) == recording(s));
    }
}

/// Building a graph neither begins nor ends a recording.
pub proof fn law_building_keeps_the_recording(
    rt: RuntimeState,
    commands: Seq<CommandView>,
    freeze: bool,
)
    ensures
        recording(graph_step(rt, commands, freeze).0) == recording(rt),
{
    broadcast use group_recording;

    let n = commands.len() as int;
    lemma_frozen_commands_record(rt, commands, n);
    let (s, frozen) = if freeze {
        frozen_commands(rt, commands, n)
    } else {
        (rt, Ok(commands))
    };
    if frozen is Ok {
        let cmds = frozen->Ok_0;
        let (t, made) = s.icb_created(freeze, n as usize);
        lemma_tabled_records(t, cmds, cmds.len() as int);
        let u = graph_tables(t, cmds, freeze).0;
        lemma_encoded_commands_record(u, made->0, cmds, freeze, n);
    }
}

/// Nor does the copy chain.
pub proof fn law_copy_chains_keep_the_recording(rt: RuntimeState, n: usize, freeze: bool)
    ensures
        recording(chain_step(rt, n, freeze).0) == recording(rt),
{
    broadcast use group_recording;

    let (s, storage) = chain_storage(rt, n);
    assert(recording(s) == recording(rt));
    if storage is Ok {
        let (a, b, c, k) = storage->Ok_0;
        let filled = chain_filled(s, n, a, b, c, k);
        assert(recording(filled) == recording(s));
        let (t, pipe) = filled.icb_piped("copy_f32"@);
        if pipe is Ok {
            let p = pipe->Ok_0;
            law_building_keeps_the_recording(
                t,
                seq![
                    hop(p, n, a, b, k, true),
                    hop(p, n, b, c, k, false),
                ],
                freeze,
            );
        }
    }
}

// --------------------------------------------------------------- replaying ---

proof fn lemma_bound_notes(s: ReplayState, binds: Seq<BindView>, n: int)
    ensures
        noting(s.bound_to(binds, n).binder) == noting(s.binder),
    decreases n,
{
    if n > 0 {
        lemma_bound_notes(s, binds, n - 1);
    }
}

proof fn lemma_tabled_notes(s: ReplayState, table: u64, binds: Seq<BindView>, n: int)
    ensures
        noting(s.tabled_to(table, binds, n).binder) == noting(s.binder),
    decreases n,
{
    if n > 0 {
        lemma_tabled_notes(s, table, binds, n - 1);
    }
}

proof fn lemma_counted_notes(s: ReplayState, binds: Seq<BindView>, n: int)
    ensures
        s.counted(binds, n).binder == s.binder,
    decreases n,
{
    if n > 0 {
        lemma_counted_notes(s, binds, n - 1);
    }
}

proof fn lemma_replayed_notes(
    s: ReplayState,
    c: CommandView,
    at: usize,
    table: Option<u64>,
    o: ReplayOpts,
)
    ensures
        noting(s.replayed(c, at, table, o).binder) == noting(s.binder),
{
    let n = c.binds.len() as int;
    let t = ReplayState { binder: s.binder.piped(c.pipeline), ..s };
    lemma_counted_notes(t.ran(o, at, 1, false), c.binds, n);
    lemma_bound_notes(t, c.binds, n);
    if table is Some {
        lemma_tabled_notes(t.adopted(table->0), table->0, c.binds, n);
    }
}

proof fn lemma_tape_notes(s: ReplayState, g: GraphView, exec: bool, n: int)
    ensures
        noting(replayed_to(s, g, exec, n).binder) == noting(s.binder),
    decreases n,
{
    if n > 0 {
        lemma_tape_notes(s, g, exec, n - 1);
        lemma_replayed_notes(
            replayed_to(s, g, exec, n - 1),
            g.commands[n - 1],
            (n - 1) as usize,
            g.table(n - 1),
            g.opts(exec),
        );
    }
}

proof fn lemma_between_notes(s: ReplayState, commands: Seq<CommandView>, i: int, j: int)
    ensures
        counted_between(s, commands, i, j).binder == s.binder,
    decreases j - i,
{
    if j > i {
        lemma_between_notes(s, commands, i, j - 1);
        let binds = commands[j - 1].binds;
        lemma_counted_notes(counted_between(s, commands, i, j - 1), binds, binds.len() as int);
    }
}

proof fn lemma_spans_note(s: ReplayState, g: GraphView, i: int)
    ensures
        noting(spans_from(s, g, i).binder) == noting(s.binder),
    decreases g.commands.len() - i,
{
    if 0 <= i < g.commands.len() {
        law_ranges_end_at_markers(g.commands, i);
        let j = span_end(g.commands, i);
        let t = ReplayState { binder: s.binder.piped(g.commands[i].pipeline), ..s }.ran(
            g.opts(true),
            i as usize,
            j - i,
            false,
        );
        lemma_between_notes(t, g.commands, i, j);
        assert(noting(span_run(s, g, i, j).binder) == noting(s.binder));
        lemma_spans_note(span_run(s, g, i, j), g, j);
    }
}

proof fn lemma_passes_record(rt: RuntimeState, g: GraphView, exec: bool, ranged: bool)
    ensures
        recording(passed(rt, g, exec, ranged).0) == recording(rt),
{
    let (mid, b) = rt.scoped(Some(true));
    let s = ReplayState::start(b, no_tally());
    let r = if ranged {
        spans_from(s, g, 0)
    } else {
        replayed_to(s, g, exec, g.commands.len() as int)
    };
    lemma_scopes_note(rt, Some(true));
    lemma_spans_note(s, g, 0);
    lemma_tape_notes(s, g, exec, g.commands.len() as int);
    lemma_unscoped_records(mid, r.binder, None);
}

proof fn lemma_lone_records(rt: RuntimeState, g: GraphView, exec: bool, i: int, tally: Tally)
    ensures
        recording(lone(rt, g, exec, i, tally).0) == recording(rt),
{
    reveal(lone);
    let (mid, b) = rt.scoped(Some(true));
    let s = ReplayState::start(b, tally);
    lemma_scopes_note(rt, Some(true));
    lemma_replayed_notes(s, g.commands[i], i as usize, g.table(i), g.opts(exec));
    let r = s.replayed(g.commands[i], i as usize, g.table(i), g.opts(exec));
    lemma_unscoped_records(mid, r.binder, None);
}

proof fn lemma_triaged_records(rt: RuntimeState, g: GraphView, exec: bool, n: int)
    ensures
        recording(triaged(rt, g, exec, n).0) == recording(rt),
    decreases n,
{
    broadcast use group_recording;

    if n > 0 {
        lemma_triaged_records(rt, g, exec, n - 1);
        let (s, p, tally) = triaged(rt, g, exec, n - 1);
        lemma_lone_records(s, g, exec, n - 1, tally);
        reveal(probed);
    }
}

proof fn lemma_tuned_records(rt: RuntimeState, g: GraphView, exec: bool)
    ensures
        recording(tuned(rt, g, exec).0) == recording(rt),
{
    let f = |b: BinderState|
        b.with_op(
            DeviceOp::OptimizeIcb { icb: g.icb, start: 0, count: g.commands.len() as u64 },
        );
    lemma_encoded_records(rt, None, f);
}

/// Replaying a graph neither begins nor ends a recording: one that is
/// in progress goes on.
pub proof fn law_replays_keep_the_recording(rt: RuntimeState, g: GraphView)
    ensures
        recording(execute_step(rt, g).0) == recording(rt),
{
    let h = coarsened(rt, g);
    let read = range_flags_read(rt, g.freeze);
    assert(recording(read) == recording(rt));
    lemma_tuned_records(read, h, true);
    lemma_tuned_records(read, h, false);
    let t = tuned(read, h, true).0;
    let f = tuned(read, h, false).0;
    let n = h.commands.len() as int;
    lemma_triaged_records(t, h, true, n);
    lemma_triaged_records(f, h, false, n);
    lemma_passes_record(t, h, true, runs_ranges(rt, g));
    lemma_passes_record(f, h, false, runs_ranges(rt, g));
}

/// Nor does a replay through the ledger.
pub proof fn law_ledger_replays_keep_the_recording(rt: RuntimeState, l: LedgerView, slot: CbSlot)
    ensures
        recording(graph_run(rt, l).0) == recording(rt),
        recording(graph_tried(rt, l, slot).0) == recording(rt),
{
    let read = replay_flag_read(rt);
    if l.graph is Some {
        law_replays_keep_the_recording(rt, l.graph->0);
        law_replays_keep_the_recording(read, l.graph->0);
    }
}

} // verus!
