//! Replay of a graph: pipelines, binds and barriers of the tape, straight or
//! from the ICB, in one scope, range by range, or command by command.

use vstd::prelude::*;

use crate::ab_flags::env_or;
use crate::capture::{bind_views, command_views, BindView, CommandView, DecodeIcbBind, DecodeIcbCommand};
use crate::decode_icb::graph::{
    all_indirect, new_tally, no_tally, pipelines_indirect, DecodeIcb, GraphView, Tally,
};
use crate::decode_icb::tape::{
    bump, bumped, elided, elided_count, empty_slots, is_address, StickyCount,
};
use crate::device::{DeviceOp, ARGUMENT_TABLE_MAX_BUFFERS};
use crate::dispatch::{Binder, BinderState};
use crate::icb_flags::{
    icb_execute_enabled, icb_triage_enabled, IcbFlags, ENV_ICB_EXECUTE, ENV_ICB_TRIAGE,
};
use crate::runtime::GpuRuntime;
use crate::sizes::{least, min_usize};
use crate::state::RuntimeState;
use crate::text::{owned, reports};

verus! {

/// `a + b`, or stuck at the top.
pub open spec fn raised(a: u64, b: int) -> u64 {
    if a + b > u64::MAX {
        u64::MAX
    } else {
        (a + b) as u64
    }
}

fn raise(a: u64, b: u64) -> (r: u64)
    ensures
        r == raised(a, b as int),
{
    match a.checked_add(b) {
        Some(c) => c,
        None => u64::MAX,
    }
}

/// How commands are encoded.
#[derive(Clone, Copy, Debug, PartialEq, Eq, Structural)]
pub struct ReplayOpts {
    pub icb: u64,
    /// Commands the ICB holds.
    pub size: usize,
    /// Run ICB-capable commands from the ICB.
    pub use_icb_exec: bool,
    /// Binds sit in the ICB.
    pub freeze_binds: bool,
}

/// A replay in progress: the binder, what sits in the slots of the argument
/// table, and the counts so far.
#[verifier::ext_equal]
pub struct ReplayState {
    pub binder: BinderState,
    pub slots: Seq<Option<u64>>,
    pub tally: Tally,
}

impl ReplayState {
    /// Before the first command of a scope.
    pub open spec fn start(binder: BinderState, tally: Tally) -> ReplayState {
        ReplayState { binder, slots: StickyCount::start().slots, tally }
    }

    /// After an address was bound; one that sits in its slot is skipped.
    pub open spec fn bound_address(self, address: u64, index: usize) -> ReplayState {
        let counted = Tally { binds: bumped(self.tally.binds), ..self.tally };
        if index < ARGUMENT_TABLE_MAX_BUFFERS && self.slots[index as int] == Some(address) {
            ReplayState { tally: counted, ..self }
        } else {
            ReplayState {
                binder: self.binder.bound_address(address, index),
                slots: self.slotted(address, index),
                tally: Tally { set_address: bumped(counted.set_address), ..counted },
            }
        }
    }

    /// The slots with an address put in one of them.
    pub open spec fn slotted(self, address: u64, index: usize) -> Seq<Option<u64>> {
        if index < ARGUMENT_TABLE_MAX_BUFFERS {
            self.slots.update(index as int, Some(address))
        } else {
            self.slots
        }
    }

    /// After constant bytes were bound; they always move.
    pub open spec fn bound_bytes(self, bytes: Seq<u8>, index: usize) -> ReplayState {
        let (binder, address) = self.binder.bound_bytes(bytes, index);
        ReplayState {
            binder,
            slots: self.slotted(address, index),
            tally: Tally {
                binds: bumped(self.tally.binds),
                set_address: bumped(self.tally.set_address),
                ..self.tally
            },
        }
    }

    /// After the first `n` binds were replayed one by one.
    pub open spec fn bound_to(self, binds: Seq<BindView>, n: int) -> ReplayState
        decreases n,
    {
        if n <= 0 {
            self
        } else {
            let s = self.bound_to(binds, n - 1);
            match binds[n - 1] {
                BindView::Buf { index, gpu_addr, .. } => s.bound_address(gpu_addr, index),
                BindView::Immediate { index, bytes } => s.bound_bytes(bytes, index),
            }
        }
    }

    /// After a prebuilt table was made the encoder's.
    pub open spec fn adopted(self, table: u64) -> ReplayState {
        ReplayState {
            binder: self.binder.adopted(table),
            tally: if self.binder.latched && self.binder.table == Some(table) {
                self.tally
            } else {
                Tally { set_table: bumped(self.tally.set_table), ..self.tally }
            },
            ..self
        }
    }

    /// After the first `n` binds of a prebuilt table: buffers sit in it, and
    /// constant bytes are set in it.
    pub open spec fn tabled_to(self, table: u64, binds: Seq<BindView>, n: int) -> ReplayState
        decreases n,
    {
        if n <= 0 {
            self
        } else {
            let s = self.tabled_to(table, binds, n - 1);
            let counted = Tally { binds: bumped(s.tally.binds), ..s.tally };
            match binds[n - 1] {
                BindView::Buf { .. } => ReplayState {
                    tally: Tally { elided: bumped(counted.elided), ..counted },
                    ..s
                },
                BindView::Immediate { index, bytes } => {
                    let (w, address) = s.binder.written(bytes);
                    ReplayState {
                        binder: w.with_op(DeviceOp::SetTableAddress { table, index, address }),
                        tally: Tally { set_address: bumped(counted.set_address), ..counted },
                        ..s
                    }
                },
            }
        }
    }

    /// After one command was replayed.
    pub open spec fn replayed(
        self,
        c: CommandView,
        at: usize,
        table: Option<u64>,
        o: ReplayOpts,
    ) -> ReplayState {
        let n = c.binds.len() as int;
        let s = ReplayState { binder: self.binder.piped(c.pipeline), ..self };
        let t = if o.freeze_binds {
            s.ran(o, at, 1, false).counted(c.binds, n)
        } else {
            let bound = match table {
                Some(table) => s.adopted(table).tabled_to(table, c.binds, n),
                None => s.bound_to(c.binds, n),
            };
            let ready = match c.tg_mem {
                Some((index, length)) => ReplayState {
                    binder: bound.binder.with_tg_mem(index, length),
                    ..bound
                },
                None => bound,
            };
            if o.use_icb_exec && c.pipeline.icb {
                ready.ran(o, at, 1, true)
            } else {
                ReplayState {
                    binder: ready.binder.dispatched(c.threadgroups, c.threads_per_tg),
                    ..ready
                }
            }
        };
        t.marked(c.barrier_after)
    }

    /// After `count` commands of the ICB from `start` on were run.
    pub open spec fn ran(self, o: ReplayOpts, start: usize, count: int, inherit: bool) -> ReplayState {
        ReplayState {
            binder: self.binder.ran_icb(o.icb, o.size, start as u64, count as u64, inherit),
            tally: Tally {
                icb_calls: bumped(self.tally.icb_calls),
                icb_commands: raised(self.tally.icb_commands, count),
                ..self.tally
            },
            ..self
        }
    }

    /// With the first `n` frozen binds counted.
    pub open spec fn counted(self, binds: Seq<BindView>, n: int) -> ReplayState
        decreases n,
    {
        if n <= 0 {
            self
        } else {
            let s = self.counted(binds, n - 1);
            let counted = Tally { binds: bumped(s.tally.binds), ..s.tally };
            ReplayState {
                tally: if binds[n - 1] is Buf {
                    Tally { elided: bumped(counted.elided), ..counted }
                } else {
                    counted
                },
                ..s
            }
        }
    }

    /// With a barrier where a marker asks for one.
    pub open spec fn marked(self, barrier_after: bool) -> ReplayState {
        if barrier_after {
            ReplayState { binder: self.binder.with_barrier(), ..self }
        } else {
            self
        }
    }
}

/// The exec side of a replay: slots and counts.
struct Replay {
    slots: Vec<Option<u64>>,
    tally: Tally,
}

impl Replay {
    spec fn with(self, b: BinderState) -> ReplayState {
        ReplayState { binder: b, slots: self.slots@, tally: self.tally }
    }

    spec fn wf(self) -> bool {
        self.slots@.len() == ARGUMENT_TABLE_MAX_BUFFERS
    }

    fn new(tally: Tally) -> (r: Replay)
        ensures
            r.wf(),
            forall|b: BinderState| #[trigger] r.with(b) == ReplayState::start(b, tally),
    {
        Replay { slots: empty_slots(), tally }
    }

    fn bind_addr(&mut self, b: &mut Binder, address: u64, index: usize)
        requires
            old(self).wf(),
        ensures
            final(self).wf(),
            final(self).with(final(b)@) == old(self).with(old(b)@).bound_address(address, index),
    {
        self.tally.binds = bump(self.tally.binds);
        if index < ARGUMENT_TABLE_MAX_BUFFERS {
            if is_address(&self.slots[index], address) {
                return;
            }
            self.slots.set(index, Some(address));
        }
        b.bind_addr(address, index);
        self.tally.set_address = bump(self.tally.set_address);
    }

    fn bind_bytes(&mut self, b: &mut Binder, bytes: &[u8], index: usize)
        requires
            old(self).wf(),
        ensures
            final(self).wf(),
            final(self).with(final(b)@) == old(self).with(old(b)@).bound_bytes(bytes@, index),
    {
        self.tally.binds = bump(self.tally.binds);
        let address: u64 = b.bind_bytes(bytes, index);
        self.tally.set_address = bump(self.tally.set_address);
        if index < ARGUMENT_TABLE_MAX_BUFFERS {
            self.slots.set(index, Some(address));
        }
    }

    fn bind_prebuilt(&mut self, b: &mut Binder, table: u64, binds: &Vec<DecodeIcbBind>)
        requires
            old(self).wf(),
        ensures
            final(self).wf(),
            final(self).with(final(b)@) == old(self).with(old(b)@).adopted(table).tabled_to(
                table,
                bind_views(binds@),
                binds@.len() as int,
            ),
    {
        if b.adopt_argument_table(table) {
            self.tally.set_table = bump(self.tally.set_table);
        }
        let ghost s = self.with(b@);
        let ghost views = bind_views(binds@);
        assert(s == old(self).with(old(b)@).adopted(table));
        let mut i: usize = 0;
        while i < binds.len()
            invariant
                self.wf(),
                i <= binds@.len(),
                views == bind_views(binds@),
                self.with(b@) == s.tabled_to(table, views, i as int),
            decreases binds@.len() - i,
        {
            assert(views[i as int] == binds@[i as int]@);
            self.tally.binds = bump(self.tally.binds);
            match &binds[i] {
                DecodeIcbBind::Buf { .. } => {
                    self.tally.elided = bump(self.tally.elided);
                },
                DecodeIcbBind::Immediate { index, bytes } => {
                    let address: u64 = b.materialize_bytes(bytes.as_slice());
                    b.set_table_address(table, *index, address);
                    self.tally.set_address = bump(self.tally.set_address);
                },
            }
            i += 1;
        }
    }

    fn bind_each(&mut self, b: &mut Binder, binds: &Vec<DecodeIcbBind>)
        requires
            old(self).wf(),
        ensures
            final(self).wf(),
            final(self).with(final(b)@) == old(self).with(old(b)@).bound_to(
                bind_views(binds@),
                binds@.len() as int,
            ),
    {
        let ghost s = self.with(b@);
        let ghost views = bind_views(binds@);
        let mut i: usize = 0;
        while i < binds.len()
            invariant
                self.wf(),
                i <= binds@.len(),
                views == bind_views(binds@),
                self.with(b@) == s.bound_to(views, i as int),
            decreases binds@.len() - i,
        {
            assert(views[i as int] == binds@[i as int]@);
            match &binds[i] {
                DecodeIcbBind::Buf { index, gpu_addr, .. } => {
                    self.bind_addr(b, *gpu_addr, *index);
                },
                DecodeIcbBind::Immediate { index, bytes } => {
                    self.bind_bytes(b, bytes.as_slice(), *index);
                },
            }
            i += 1;
        }
    }

    fn count_binds(&mut self, binds: &Vec<DecodeIcbBind>, Ghost(b): Ghost<BinderState>)
        requires
            old(self).wf(),
        ensures
            final(self).wf(),
            final(self).with(b) == old(self).with(b).counted(
                bind_views(binds@),
                binds@.len() as int,
            ),
    {
        let ghost s = self.with(b);
        let ghost views = bind_views(binds@);
        let mut i: usize = 0;
        while i < binds.len()
            invariant
                self.wf(),
                i <= binds@.len(),
                views == bind_views(binds@),
                self.with(b) == s.counted(views, i as int),
            decreases binds@.len() - i,
        {
            assert(views[i as int] == binds@[i as int]@);
            self.tally.binds = bump(self.tally.binds);
            match &binds[i] {
                DecodeIcbBind::Buf { .. } => {
                    self.tally.elided = bump(self.tally.elided);
                },
                DecodeIcbBind::Immediate { .. } => {},
            }
            i += 1;
        }
    }

    fn run(&mut self, b: &mut Binder, o: ReplayOpts, start: usize, count: usize, inherit: bool)
        requires
            old(self).wf(),
        ensures
            final(self).wf(),
            final(self).with(final(b)@) == old(self).with(old(b)@).ran(
                o,
                start,
                count as int,
                inherit,
            ),
    {
        b.execute_icb_ex(o.icb, o.size, start as u64, count as u64, inherit);
        self.tally.icb_calls = bump(self.tally.icb_calls);
        self.tally.icb_commands = raise(self.tally.icb_commands, count as u64);
    }

    /// Replays one command.
    fn encode_cmd(
        &mut self,
        b: &mut Binder,
        c: &DecodeIcbCommand,
        at: usize,
        table: Option<u64>,
        o: ReplayOpts,
    )
        requires
            old(self).wf(),
        ensures
            final(self).wf(),
            final(self).with(final(b)@) == old(self).with(old(b)@).replayed(c@, at, table, o),
    {
        b.set_pipeline(&c.pipeline);
        if o.freeze_binds {
            self.run(b, o, at, 1, false);
            self.count_binds(&c.binds, Ghost(b@));
        } else {
            match table {
                Some(table) => self.bind_prebuilt(b, table, &c.binds),
                None => self.bind_each(b, &c.binds),
            }
            match c.tg_mem {
                Some((index, length)) => b.set_threadgroup_memory(index, length),
                None => {},
            }
            if o.use_icb_exec && c.pipeline.icb {
                self.run(b, o, at, 1, true);
            } else {
                b.dispatch(c.threadgroups, c.threads_per_tg);
            }
        }
        if c.barrier_after {
            b.barrier();
        }
    }
}

// ----------------------------------------------------------- whole tapes ---

impl GraphView {
    /// The tape has a table for every command, and they are in use.
    pub open spec fn tabled(self) -> bool {
        !self.freeze && self.tables.len() > 0 && self.tables.len() == self.commands.len()
    }

    /// The table of command `i`, where tables are in use.
    pub open spec fn table(self, i: int) -> Option<u64> {
        if self.tabled() {
            Some(self.tables[i])
        } else {
            None
        }
    }

    /// How the commands of this graph are encoded.
    pub open spec fn opts(self, use_icb_exec: bool) -> ReplayOpts {
        ReplayOpts {
            icb: self.icb,
            size: self.commands.len() as usize,
            use_icb_exec,
            freeze_binds: self.freeze,
        }
    }
}

/// After the first `n` commands were replayed in one scope.
pub open spec fn replayed_to(s: ReplayState, g: GraphView, exec: bool, n: int) -> ReplayState
    decreases n,
{
    if n <= 0 {
        s
    } else {
        replayed_to(s, g, exec, n - 1).replayed(
            g.commands[n - 1],
            (n - 1) as usize,
            g.table(n - 1),
            g.opts(exec),
        )
    }
}

/// End of the range that starts at command `i`: just past the first barrier
/// marker, or the end of the tape.
pub open spec fn span_end(commands: Seq<CommandView>, i: int) -> int
    decreases commands.len() - i,
{
    if i >= commands.len() {
        commands.len() as int
    } else if commands[i].barrier_after {
        i + 1
    } else {
        span_end(commands, i + 1)
    }
}

/// With the frozen binds of commands `i` to `j` counted.
pub open spec fn counted_between(s: ReplayState, commands: Seq<CommandView>, i: int, j: int) -> ReplayState
    decreases j - i,
{
    if j <= i {
        s
    } else {
        let binds = commands[j - 1].binds;
        counted_between(s, commands, i, j - 1).counted(binds, binds.len() as int)
    }
}

/// After commands `i` to `j` were run as one range.
pub open spec fn span_run(s: ReplayState, g: GraphView, i: int, j: int) -> ReplayState {
    let t = ReplayState { binder: s.binder.piped(g.commands[i].pipeline), ..s }.ran(
        g.opts(true),
        i as usize,
        j - i,
        false,
    );
    counted_between(t, g.commands, i, j).marked(g.commands[j - 1].barrier_after)
}

/// After all ranges from command `i` on were run.
pub open spec fn spans_from(s: ReplayState, g: GraphView, i: int) -> ReplayState
    decreases g.commands.len() - i,
{
    if i < 0 || i >= g.commands.len() {
        s
    } else {
        proof {
            law_ranges_end_at_markers(g.commands, i);
        }
        let j = span_end(g.commands, i);
        spans_from(span_run(s, g, i, j), g, j)
    }
}

/// A range holds at least its first command, stays inside the tape, has no
/// marker before its last command, and ends at a marker or with the tape.
pub proof fn law_ranges_end_at_markers(commands: Seq<CommandView>, i: int)
    requires
        0 <= i < commands.len(),
    ensures
        i < span_end(commands, i) <= commands.len(),
        forall|k: int|
            i <= k < span_end(commands, i) - 1 ==> !(#[trigger] commands[k]).barrier_after,
        span_end(commands, i) < commands.len() ==> commands[span_end(commands, i)
            - 1].barrier_after,
    decreases commands.len() - i,
{
    reveal_with_fuel(span_end, 2);
    if !commands[i].barrier_after && i + 1 < commands.len() {
        law_ranges_end_at_markers(commands, i + 1);
    }
}

/// What a pass leaves: the runtime, its failure if any, and the counts.
pub open spec fn passed(rt: RuntimeState, g: GraphView, exec: bool, ranged: bool) -> (
    RuntimeState,
    Option<Seq<char>>,
    Tally,
) {
    if rt.icb.encode_nop {
        (rt, None, no_tally())
    } else {
        match rt.access_problem() {
            Some(m) => (rt, Some(m), no_tally()),
            None => {
                let (mid, b) = rt.scoped(Some(true));
                let s = ReplayState::start(b, no_tally());
                let r = if ranged {
                    spans_from(s, g, 0)
                } else {
                    replayed_to(s, g, exec, g.commands.len() as int)
                };
                let (after, problem) = mid.unscoped(r.binder, None);
                (after, problem, r.tally)
            },
        }
    }
}

/// After the probe was sampled behind command `i`: the device caught up, the
/// host looked.
#[verifier::opaque]
pub open spec fn probed(rt: RuntimeState, g: GraphView, i: int) -> (RuntimeState, Option<Seq<char>>) {
    match g.probe {
        None => (rt, None),
        Some((buf, n)) => match rt.access_problem() {
            Some(m) => (rt, Some(m)),
            None => {
                let s = RuntimeState { busy: true, ..rt.committed(true) }.committed(true).with_op(
                    DeviceOp::Probe {
                        slab: buf.slab.id,
                        floats: least(n as int, buf.nbytes as int / 4) as usize,
                        at: i as usize,
                        total: g.commands.len() as usize,
                    },
                );
                (RuntimeState { busy: false, ..s }, None)
            },
        },
    }
}

/// After command `i` was replayed in a scope of its own.
#[verifier::opaque]
pub open spec fn lone(rt: RuntimeState, g: GraphView, exec: bool, i: int, tally: Tally) -> (
    RuntimeState,
    Option<Seq<char>>,
    Tally,
) {
    if rt.icb.encode_nop {
        (rt, None, tally)
    } else {
        match rt.access_problem() {
            Some(m) => (rt, Some(m), tally),
            None => {
                let (mid, b) = rt.scoped(Some(true));
                let r = ReplayState::start(b, tally).replayed(
                    g.commands[i],
                    i as usize,
                    g.table(i),
                    g.opts(exec),
                );
                let (after, problem) = mid.unscoped(r.binder, None);
                (after, problem, r.tally)
            },
        }
    }
}

/// After the first `n` commands were replayed one by one, each in a scope of
/// its own, with the probe sampled behind it. The first failure ends the pass.
pub open spec fn triaged(rt: RuntimeState, g: GraphView, exec: bool, n: int) -> (
    RuntimeState,
    Option<Seq<char>>,
    Tally,
)
    decreases n,
{
    if n <= 0 {
        (rt, None, no_tally())
    } else {
        let (s, p, tally) = triaged(rt, g, exec, n - 1);
        if p is Some {
            (s, p, tally)
        } else {
            let (t, q, more) = lone(s, g, exec, n - 1, tally);
            if q is Some {
                (t, q, more)
            } else {
                let (u, w) = probed(t, g, n - 1);
                (u, w, more)
            }
        }
    }
}

proof fn lemma_triaged_stops(rt: RuntimeState, g: GraphView, exec: bool, i: int, n: int)
    requires
        0 <= i <= n,
        triaged(rt, g, exec, i).1 is Some,
    ensures
        triaged(rt, g, exec, n) == triaged(rt, g, exec, i),
    decreases n,
{
    if i < n {
        lemma_triaged_stops(rt, g, exec, i, n - 1);
    }
}

/// After the flags a replay reads were read: the range flags only where binds
/// are frozen, the coarse one only where ranges are on.
pub open spec fn range_flags_read(rt: RuntimeState, freeze: bool) -> RuntimeState {
    let env = rt.ab.env;
    let ranged = rt.icb.range_batch_value(env);
    if !freeze {
        rt
    } else {
        let f = IcbFlags { range_batch: Some(ranged), ..rt.icb };
        RuntimeState {
            icb: if ranged {
                f.with_coarse_ranges_read(env)
            } else {
                f
            },
            ..rt
        }
    }
}

/// Ranges between markers run as one.
pub open spec fn runs_ranges(rt: RuntimeState, g: GraphView) -> bool {
    g.freeze && rt.icb.range_batch_value(rt.ab.env)
}

/// The graph with idle barrier markers dropped, the first time coarse ranges
/// are in force.
pub open spec fn coarsened(rt: RuntimeState, g: GraphView) -> GraphView {
    let env = rt.ab.env;
    let f = IcbFlags { range_batch: Some(rt.icb.range_batch_value(env)), ..rt.icb };
    if runs_ranges(rt, g) && f.coarse_ranges_value(env) && !g.coarsened {
        GraphView {
            commands: elided(g.commands),
            barriers_elided: elided_count(g.commands),
            coarsened: true,
            ..g
        }
    } else {
        g
    }
}

/// After the ICB was optimized, where it is run and has not been yet.
pub open spec fn tuned(rt: RuntimeState, g: GraphView, exec: bool) -> (
    RuntimeState,
    Option<Seq<char>>,
) {
    if exec && !g.optimized && all_indirect(g.commands) {
        rt.encoded(
            None,
            |b: BinderState|
                b.with_op(
                    DeviceOp::OptimizeIcb { icb: g.icb, start: 0, count: g.commands.len() as u64 },
                ),
        )
    } else {
        (rt, None)
    }
}

/// After the report on the first run of a graph whose ranges run as one.
pub open spec fn reported(rt: RuntimeState, ranged: bool, g: GraphView) -> RuntimeState {
    if ranged && g.executes == 1 {
        rt.with_op(
            DeviceOp::ReportRanges {
                commands: g.commands.len() as usize,
                barriers: g.markers() as usize,
                elided: g.barriers_elided,
                calls: g.last.icb_calls,
                covered: g.last.icb_commands,
                tables: g.last.set_table,
            },
        )
    } else {
        rt
    }
}

/// Effect of [`DecodeIcb::execute`].
pub open spec fn execute_step(rt: RuntimeState, g: GraphView) -> (
    RuntimeState,
    GraphView,
    Option<Seq<char>>,
) {
    if !g.encoded {
        (rt, g, Some("DecodeIcb: encode before execute"@))
    } else {
        let h = coarsened(rt, g);
        let exec = g.freeze || env_or(rt.ab.env, ENV_ICB_EXECUTE@, false);
        let (s, p) = tuned(range_flags_read(rt, g.freeze), h, exec);
        if p is Some {
            (s, h, p)
        } else {
            let (t, q, tally) = if env_or(rt.ab.env, ENV_ICB_TRIAGE@, false) {
                triaged(s, h, exec, h.commands.len() as int)
            } else {
                passed(s, h, exec, runs_ranges(rt, g))
            };
            if q is Some {
                (t, h, q)
            } else {
                let done = GraphView {
                    last: tally,
                    optimized: true,
                    executes: bumped(h.executes),
                    ..h
                };
                (reported(t, runs_ranges(rt, g), done), done, None)
            }
        }
    }
}

impl DecodeIcb {
    fn table_at(&self, i: usize) -> (r: Option<u64>)
        requires
            i < self.commands@.len(),
        ensures
            r == self@.table(i as int),
    {
        if !self.freeze && self.tables.len() > 0 && self.tables.len() == self.commands.len() {
            Some(self.tables[i])
        } else {
            None
        }
    }

    fn replay_opts(&self, use_icb_exec: bool) -> (r: ReplayOpts)
        ensures
            r == self@.opts(use_icb_exec),
    {
        ReplayOpts {
            icb: self.icb,
            size: self.commands.len(),
            use_icb_exec,
            freeze_binds: self.freeze,
        }
    }

    /// Replays the whole tape in the binder's scope.
    fn replay_all(&self, b: &mut Binder, exec: bool) -> (tally: Tally)
        ensures
            ({
                let r = replayed_to(
                    ReplayState::start(old(b)@, no_tally()),
                    self@,
                    exec,
                    self@.commands.len() as int,
                );
                final(b)@ == r.binder && tally == r.tally
            }),
    {
        let mut replay = Replay::new(new_tally());
        let o = self.replay_opts(exec);
        let ghost s = ReplayState::start(b@, no_tally());
        assert(replay.with(b@) == s);
        let mut i: usize = 0;
        while i < self.commands.len()
            invariant
                replay.wf(),
                i <= self.commands@.len(),
                o == self@.opts(exec),
                replay.with(b@) == replayed_to(s, self@, exec, i as int),
            decreases self.commands@.len() - i,
        {
            assert(self@.commands[i as int] == self.commands@[i as int]@);
            let table = self.table_at(i);
            replay.encode_cmd(b, &self.commands[i], i, table, o);
            i += 1;
        }
        replay.tally
    }

    fn find_span_end(&self, start: usize) -> (r: usize)
        requires
            start < self.commands@.len(),
        ensures
            r == span_end(self@.commands, start as int),
            start < r <= self.commands@.len(),
    {
        proof {
            law_ranges_end_at_markers(self@.commands, start as int);
        }
        let ghost views = self@.commands;
        let mut i: usize = start;
        while i < self.commands.len()
            invariant
                start <= i <= self.commands@.len(),
                views == command_views(self.commands@),
                span_end(views, start as int) == span_end(views, i as int),
            decreases self.commands@.len() - i,
        {
            assert(views[i as int] == self.commands@[i as int]@);
            if self.commands[i].barrier_after {
                return i + 1;
            }
            i += 1;
        }
        i
    }

    /// Runs the tape range by range.
    fn replay_ranges(&self, b: &mut Binder) -> (tally: Tally)
        ensures
            ({
                let r = spans_from(ReplayState::start(old(b)@, no_tally()), self@, 0);
                final(b)@ == r.binder && tally == r.tally
            }),
    {
        let mut replay = Replay::new(new_tally());
        let o = self.replay_opts(true);
        let ghost s = ReplayState::start(b@, no_tally());
        let ghost g = self@;
        assert(replay.with(b@) == s);
        let mut i: usize = 0;
        while i < self.commands.len()
            invariant
                replay.wf(),
                i <= self.commands@.len(),
                g == self@,
                o == g.opts(true),
                spans_from(s, g, 0) == spans_from(replay.with(b@), g, i as int),
            decreases self.commands@.len() - i,
        {
            let end: usize = self.find_span_end(i);
            assert(g.commands[i as int] == self.commands@[i as int]@);
            assert(g.commands[end - 1] == self.commands@[end - 1]@);
            let ghost before = replay.with(b@);
            b.set_pipeline(&self.commands[i].pipeline);
            replay.run(b, o, i, end - i, false);
            let ghost t = replay.with(b@);
            let ghost bs = b@;
            let mut k: usize = i;
            while k < end
                invariant
                    replay.wf(),
                    i <= k <= end <= self.commands@.len(),
                    g == self@,
                    t.binder == bs,
                    replay.with(bs) == counted_between(t, g.commands, i as int, k as int),
                decreases end - k,
            {
                assert(g.commands[k as int] == self.commands@[k as int]@);
                replay.count_binds(&self.commands[k].binds, Ghost(bs));
                k += 1;
            }
            if self.commands[end - 1].barrier_after {
                b.barrier();
            }
            assert(replay.with(b@) == span_run(before, g, i as int, end as int));
            i = end;
        }
        replay.tally
    }

    fn pass(&self, rt: &mut GpuRuntime, exec: bool, ranged: bool) -> (r: Result<Tally, String>)
        requires
            old(rt).inv(),
        ensures
            final(rt).inv(),
            ({
                let (s, problem, tally) = passed(old(rt)@, self@, exec, ranged);
                &&& final(rt)@ == s
                &&& reports(r, problem)
                &&& r matches Ok(t) ==> t == tally
            }),
    {
        match rt.may_open_scope() {
            Err(e) => {
                return Err(e);
            },
            Ok(live) => {
                if !live {
                    return Ok(new_tally());
                }
            },
        }
        let mut b = rt.open_scope(Some(true));
        let tally = if ranged {
            self.replay_ranges(&mut b)
        } else {
            self.replay_all(&mut b, exec)
        };
        match rt.close_scope(b, Ok(())) {
            Err(e) => Err(e),
            Ok(()) => Ok(tally),
        }
    }

    fn replay_one(&self, rt: &mut GpuRuntime, exec: bool, i: usize, tally: Tally) -> (r: Result<
        Tally,
        String,
    >)
        requires
            old(rt).inv(),
            i < self.commands@.len(),
        ensures
            final(rt).inv(),
            ({
                let (s, problem, more) = lone(old(rt)@, self@, exec, i as int, tally);
                &&& final(rt)@ == s
                &&& reports(r, problem)
                &&& r matches Ok(t) ==> t == more
            }),
    {
        proof {
            reveal(lone);
        }
        match rt.may_open_scope() {
            Err(e) => {
                return Err(e);
            },
            Ok(live) => {
                if !live {
                    return Ok(tally);
                }
            },
        }
        let mut b = rt.open_scope(Some(true));
        let mut replay = Replay::new(tally);
        let ghost b0 = b@;
        assert(replay.with(b0) == ReplayState::start(b0, tally));
        assert(self@.commands[i as int] == self.commands@[i as int]@);
        let table = self.table_at(i);
        let o = self.replay_opts(exec);
        replay.encode_cmd(&mut b, &self.commands[i], i, table, o);
        match rt.close_scope(b, Ok(())) {
            Err(e) => Err(e),
            Ok(()) => Ok(replay.tally),
        }
    }

    fn sample_probe(&self, rt: &mut GpuRuntime, i: usize) -> (r: Result<(), String>)
        requires
            old(rt).inv(),
        ensures
            final(rt).inv(),
            ({
                let (s, problem) = probed(old(rt)@, self@, i as int);
                final(rt)@ == s && reports(r, problem)
            }),
    {
        proof {
            reveal(probed);
        }
        match &self.probe {
            None => Ok(()),
            Some((buf, n)) => {
                let buf = buf.at();
                let n: usize = *n;
                let ghost s0 = rt@;
                rt.synchronize()?;
                proof {
                    crate::runtime::lemma_committed_frame(s0, true);
                }
                rt.host_access()?;
                rt.note_op(
                    DeviceOp::Probe {
                        slab: buf.slab.id,
                        floats: min_usize(n, buf.nbytes / 4),
                        at: i,
                        total: self.commands.len(),
                    },
                );
                rt.release_access();
                Ok(())
            },
        }
    }

    fn triage(&self, rt: &mut GpuRuntime, exec: bool) -> (r: Result<Tally, String>)
        requires
            old(rt).inv(),
        ensures
            final(rt).inv(),
            ({
                let (s, problem, tally) = triaged(
                    old(rt)@,
                    self@,
                    exec,
                    self@.commands.len() as int,
                );
                &&& final(rt)@ == s
                &&& reports(r, problem)
                &&& r matches Ok(t) ==> t == tally
            }),
    {
        let ghost g = self@;
        let ghost n = g.commands.len() as int;
        let mut tally = new_tally();
        let mut i: usize = 0;
        while i < self.commands.len()
            invariant
                rt.inv(),
                i <= self.commands@.len(),
                g == self@,
                n == g.commands.len(),
                triaged(old(rt)@, g, exec, i as int) == (rt@, None::<Seq<char>>, tally),
            decreases self.commands@.len() - i,
        {
            match self.replay_one(rt, exec, i, tally) {
                Err(e) => {
                    proof {
                        lemma_triaged_stops(old(rt)@, g, exec, i + 1, n);
                    }
                    return Err(e);
                },
                Ok(t) => {
                    tally = t;
                },
            }
            match self.sample_probe(rt, i) {
                Err(e) => {
                    proof {
                        lemma_triaged_stops(old(rt)@, g, exec, i + 1, n);
                    }
                    return Err(e);
                },
                Ok(()) => {},
            }
            i += 1;
        }
        Ok(tally)
    }

    fn optimize(&self, rt: &mut GpuRuntime, exec: bool) -> (r: Result<(), String>)
        requires
            old(rt).inv(),
        ensures
            final(rt).inv(),
            ({
                let (s, problem) = tuned(old(rt)@, self@, exec);
                final(rt)@ == s && reports(r, problem)
            }),
    {
        if !(exec && !self.optimized && pipelines_indirect(&self.commands)) {
            return Ok(());
        }
        match rt.may_open_scope() {
            Err(e) => {
                return Err(e);
            },
            Ok(live) => {
                if !live {
                    return Ok(());
                }
            },
        }
        let mut b = rt.open_scope(None);
        b.optimize_icb(self.icb, 0, self.commands.len() as u64);
        rt.close_scope(b, Ok(()))
    }

    /// Replays the tape: every recorded barrier marker and no other barrier.
    /// With frozen binds commands run from the ICB, range by range where ranges
    /// are on; else each is bound, from its table where there is one, and
    /// dispatched, or run from the ICB on request. The first run with ranges is
    /// reported.
    pub fn execute(&mut self, rt: &mut GpuRuntime) -> (r: Result<(), String>)
        requires
            old(rt).inv(),
        ensures
            final(rt).inv(),
            ({
                let (s, g, problem) = execute_step(old(rt)@, old(self)@);
                final(rt)@ == s && final(self)@ == g && reports(r, problem)
            }),
    {
        if !self.encoded {
            return Err(owned("DecodeIcb: encode before execute"));
        }
        let ranged = self.freeze && rt.read_icb_range_batch();
        if ranged && rt.read_icb_coarse_ranges() && !self.coarsened {
            self.barriers_elided = DecodeIcb::elide_non_interfering_barriers(&mut self.commands);
            self.coarsened = true;
        }
        let exec = self.freeze || icb_execute_enabled(rt.env());
        let triage = icb_triage_enabled(rt.env());
        assert(rt@ == range_flags_read(old(rt)@, old(self)@.freeze));
        assert(self@ == coarsened(old(rt)@, old(self)@));
        self.optimize(rt, exec)?;
        let tally = if triage {
            self.triage(rt, exec)?
        } else {
            self.pass(rt, exec, ranged)?
        };
        self.last = tally;
        self.optimized = true;
        self.executes = bump(self.executes);
        if ranged && self.executes == 1 {
            rt.note_op(
                DeviceOp::ReportRanges {
                    commands: self.commands.len(),
                    barriers: self.barrier_after_count(),
                    elided: self.barriers_elided,
                    calls: self.last.icb_calls,
                    covered: self.last.icb_commands,
                    tables: self.last.set_table,
                },
            );
        }
        Ok(())
    }
}

} // verus!
