//! A recorded graph as an indirect command buffer: frozen binds, shared
//! argument tables, encoded commands.

use vstd::prelude::*;

use crate::bytes::{push_word, word_bytes};
use crate::capture::{
    bind_views, buf_address, buf_gpu_addr, command_views, BindView, CommandView, DecodeIcbBind,
    DecodeIcbCommand, storages,
};
use crate::decode_icb::tape::{
    analyze_sticky_buf_binds, buf_bind_fingerprint, elided, elided_count, fingerprint,
    sticky_counts,
};
use crate::device::{mtl_size, size3, DeviceOp, Pipeline};
use crate::dispatch::{groups_for, lanes_for};
use crate::icb_flags::{prebuilt_tables_enabled, IcbFlags, ENV_ICB_PREBUILT_TABLES};
use crate::runtime::{outcome, GpuRuntime};
use crate::sizes::{div_ceil, max_usize, min_usize, most};
use crate::state::RuntimeState;
use crate::tensor::{BufferKind, GpuBuffer, Storage};
use crate::text::{bool_str, bool_text, decimal, owned, Msg};

verus! {

/// Counts of one replay.
#[derive(Clone, Copy, Debug, PartialEq, Eq, Structural)]
pub struct Tally {
    /// Binds considered.
    pub binds: u64,
    /// Table slots set.
    pub set_address: u64,
    /// Table switches.
    pub set_table: u64,
    /// Buffer binds that needed no slot set.
    pub elided: u64,
    /// Ranges run from the ICB.
    pub icb_calls: u64,
    /// Commands those ranges covered.
    pub icb_commands: u64,
}

/// Nothing counted.
pub open spec fn no_tally() -> Tally {
    Tally { binds: 0, set_address: 0, set_table: 0, elided: 0, icb_calls: 0, icb_commands: 0 }
}

/// Nothing counted.
pub fn new_tally() -> (r: Tally)
    ensures
        r == no_tally(),
{
    Tally { binds: 0, set_address: 0, set_table: 0, elided: 0, icb_calls: 0, icb_commands: 0 }
}

/// A decode graph as data.
#[verifier::ext_equal]
pub struct GraphView {
    pub icb: u64,
    pub commands: Seq<CommandView>,
    /// One argument table per command, or none.
    pub tables: Seq<u64>,
    pub unique_tables: usize,
    /// Binds are frozen into the ICB.
    pub freeze: bool,
    pub encoded: bool,
    pub optimized: bool,
    pub executes: u64,
    /// Long enough to be a recorded layer graph.
    pub layer_graph: bool,
    pub probe: Option<(Storage, usize)>,
    /// Buffers the graph has a handle of.
    pub kept: Seq<Storage>,
    /// Counts of the last replay.
    pub last: Tally,
    pub buf_binds: u64,
    pub skippable: u64,
    pub coarsened: bool,
    pub barriers_elided: u64,
}

/// Multi-command decode graph.
pub struct DecodeIcb {
    pub(crate) icb: u64,
    pub(crate) commands: Vec<DecodeIcbCommand>,
    pub(crate) tables: Vec<u64>,
    pub(crate) unique_tables: usize,
    pub(crate) freeze: bool,
    pub(crate) encoded: bool,
    pub(crate) optimized: bool,
    pub(crate) executes: u64,
    pub(crate) layer_graph: bool,
    pub(crate) probe: Option<(GpuBuffer, usize)>,
    pub(crate) kept: Vec<Storage>,
    pub(crate) last: Tally,
    pub(crate) buf_binds: u64,
    pub(crate) skippable: u64,
    pub(crate) coarsened: bool,
    pub(crate) barriers_elided: u64,
}

impl View for DecodeIcb {
    type V = GraphView;

    open(crate) spec fn view(&self) -> GraphView {
        GraphView {
            icb: self.icb,
            commands: command_views(self.commands@),
            tables: self.tables@,
            unique_tables: self.unique_tables,
            freeze: self.freeze,
            encoded: self.encoded,
            optimized: self.optimized,
            executes: self.executes,
            layer_graph: self.layer_graph,
            probe: match self.probe {
                Some((b, n)) => Some((b@, n)),
                None => None,
            },
            kept: self.kept@,
            last: self.last,
            buf_binds: self.buf_binds,
            skippable: self.skippable,
            coarsened: self.coarsened,
            barriers_elided: self.barriers_elided,
        }
    }
}

/// Fewest commands of a recorded layer graph.
pub const MIN_LAYER_GRAPH_COMMANDS: usize = 8;

// ------------------------------------------------------- frozen constants --

/// After the constant bytes among the first `n` binds went to hot buffers of
/// their own: the binds, and the buffers made.
pub open spec fn frozen_binds(rt: RuntimeState, binds: Seq<BindView>, n: int) -> (
    RuntimeState,
    Result<(Seq<BindView>, Seq<Storage>), Seq<char>>,
)
    decreases n,
{
    if n <= 0 {
        (rt, Ok((Seq::empty(), Seq::empty())))
    } else {
        let (s, r) = frozen_binds(rt, binds, n - 1);
        match r {
            Err(m) => (s, Err(m)),
            Ok((done, owned)) => match binds[n - 1] {
                BindView::Buf { .. } => (s, Ok((done.push(binds[n - 1]), owned))),
                BindView::Immediate { index, bytes } => {
                    let (t, a) = s.allocated(
                        most(bytes.len() as int, 4) as usize,
                        BufferKind::Hot,
                    );
                    match a {
                        Err(m) => (t, Err(m)),
                        Ok(buf) => (
                            t.host_written(buf.slab.id, bytes),
                            Ok(
                                (
                                    done.push(
                                        BindView::Buf {
                                            index,
                                            buf,
                                            byte_offset: 0,
                                            gpu_addr: buf_address(buf, 0),
                                        },
                                    ),
                                    owned.push(buf),
                                ),
                            ),
                        ),
                    }
                },
            },
        }
    }
}

/// After the constant bytes of the first `n` commands were frozen.
pub open spec fn frozen_commands(rt: RuntimeState, commands: Seq<CommandView>, n: int) -> (
    RuntimeState,
    Result<Seq<CommandView>, Seq<char>>,
)
    decreases n,
{
    if n <= 0 {
        (rt, Ok(Seq::empty()))
    } else {
        let (s, r) = frozen_commands(rt, commands, n - 1);
        match r {
            Err(m) => (s, Err(m)),
            Ok(done) => {
                let c = commands[n - 1];
                let (t, f) = frozen_binds(s, c.binds, c.binds.len() as int);
                match f {
                    Err(m) => (t, Err(m)),
                    Ok((binds, owned)) => (
                        t,
                        Ok(
                            done.push(
                                CommandView {
                                    binds,
                                    owned_immediates: c.owned_immediates + owned,
                                    ..c
                                },
                            ),
                        ),
                    ),
                }
            },
        }
    }
}

fn freeze_binds(rt: &mut GpuRuntime, binds: &Vec<DecodeIcbBind>) -> (r: Result<
    (Vec<DecodeIcbBind>, Vec<GpuBuffer>),
    String,
>)
    requires
        old(rt).inv(),
    ensures
        final(rt).inv(),
        ({
            let (s, e) = frozen_binds(old(rt)@, bind_views(binds@), binds@.len() as int);
            &&& final(rt)@ == s
            &&& match e {
                Ok((b, o)) => r is Ok && bind_views(r->Ok_0.0@) == b && storages(r->Ok_0.1@) == o,
                Err(m) => r is Err && r->Err_0@ == m,
            }
        }),
{
    let ghost views = bind_views(binds@);
    let mut done: Vec<DecodeIcbBind> = Vec::new();
    let mut made: Vec<GpuBuffer> = Vec::new();
    let mut i: usize = 0;
    assert(bind_views(done@) =~= Seq::<BindView>::empty());
    assert(storages(made@) =~= Seq::<Storage>::empty());
    while i < binds.len()
        invariant
            rt.inv(),
            i <= binds@.len(),
            views == bind_views(binds@),
            frozen_binds(old(rt)@, views, i as int) == (
                rt@,
                Ok::<(Seq<BindView>, Seq<Storage>), Seq<char>>((bind_views(done@), storages(made@))),
            ),
        decreases binds@.len() - i,
    {
        assert(views[i as int] == binds@[i as int]@);
        let ghost before = done@;
        match &binds[i] {
            DecodeIcbBind::Buf { .. } => {
                done.push(binds[i].duplicate());
                assert(bind_views(done@) =~= bind_views(before).push(views[i as int]));
            },
            DecodeIcbBind::Immediate { index, bytes } => {
                let buf = match rt.alloc_buffer_hot(max_usize(bytes.len(), 4)) {
                    Ok(b) => b,
                    Err(e) => {
                        proof {
                            lemma_frozen_err(old(rt)@, views, i + 1, views.len() as int);
                        }
                        return Err(e);
                    },
                };
                let at = buf.at();
                rt.host_write(at.slab.id, bytes.as_slice());
                done.push(
                    DecodeIcbBind::Buf {
                        index: *index,
                        buf: at,
                        byte_offset: 0,
                        gpu_addr: buf_gpu_addr(&at, 0),
                    },
                );
                let ghost owned_before = made@;
                made.push(buf);
                assert(storages(made@) =~= storages(owned_before).push(at));
                assert(bind_views(done@) =~= bind_views(before).push(
                    BindView::Buf {
                        index: *index,
                        buf: at,
                        byte_offset: 0,
                        gpu_addr: buf_address(at, 0),
                    },
                ));
            },
        }
        i += 1;
    }
    Ok((done, made))
}

proof fn lemma_frozen_err(rt: RuntimeState, binds: Seq<BindView>, i: int, n: int)
    requires
        0 <= i <= n,
        frozen_binds(rt, binds, i).1 is Err,
    ensures
        frozen_binds(rt, binds, n) == frozen_binds(rt, binds, i),
    decreases n,
{
    if i < n {
        lemma_frozen_err(rt, binds, i, n - 1);
    }
}

proof fn lemma_frozen_commands_err(rt: RuntimeState, commands: Seq<CommandView>, i: int, n: int)
    requires
        0 <= i <= n,
        frozen_commands(rt, commands, i).1 is Err,
    ensures
        frozen_commands(rt, commands, n) == frozen_commands(rt, commands, i),
    decreases n,
{
    if i < n {
        lemma_frozen_commands_err(rt, commands, i, n - 1);
    }
}

/// Freezes the constant bytes of a tape into hot buffers.
fn materialize_immediates(rt: &mut GpuRuntime, commands: Vec<DecodeIcbCommand>) -> (r: Result<
    Vec<DecodeIcbCommand>,
    String,
>)
    requires
        old(rt).inv(),
    ensures
        final(rt).inv(),
        ({
            let (s, e) = frozen_commands(
                old(rt)@,
                command_views(commands@),
                commands@.len() as int,
            );
            &&& final(rt)@ == s
            &&& match e {
                Ok(c) => r is Ok && command_views(r->Ok_0@) == c,
                Err(m) => r is Err && r->Err_0@ == m,
            }
        }),
{
    let ghost views = command_views(commands@);
    let mut rest = commands;
    let mut done: Vec<DecodeIcbCommand> = Vec::new();
    let ghost mut i: int = 0;
    assert(command_views(done@) =~= Seq::<CommandView>::empty());
    assert(rest@.skip(0) =~= rest@);
    while rest.len() > 0
        invariant
            rt.inv(),
            0 <= i,
            i + rest@.len() == commands@.len(),
            rest@ == commands@.skip(i),
            views == command_views(commands@),
            frozen_commands(old(rt)@, views, i) == (
                rt@,
                Ok::<Seq<CommandView>, Seq<char>>(command_views(done@)),
            ),
        decreases rest@.len(),
    {
        let mut c = rest.remove(0);
        assert(c == commands@[i]);
        assert(views[i] == commands@[i]@);
        assert(rest@ =~= commands@.skip(i + 1));
        let ghost before = done@;
        let (binds, mut made) = match freeze_binds(rt, &c.binds) {
            Ok(f) => f,
            Err(e) => {
                proof {
                    lemma_frozen_commands_err(old(rt)@, views, i + 1, views.len() as int);
                }
                return Err(e);
            },
        };
        let ghost c0 = c@;
        let ghost owned = c.owned_immediates@;
        let ghost fresh = made@;
        c.owned_immediates.append(&mut made);
        assert(storages(c.owned_immediates@) =~= storages(owned) + storages(fresh));
        c.binds = binds;
        done.push(c);
        assert(command_views(done@) =~= command_views(before).push(done@.last()@));
        proof {
            i = i + 1;
        }
    }
    Ok(done)
}

// ------------------------------------------------------ argument tables ----

/// The table under a key, from position `i` on.
pub open spec fn shared_table(unique: Seq<(u64, u64)>, key: u64, i: int) -> Option<u64>
    decreases unique.len() - i,
{
    if i < 0 || i >= unique.len() {
        None
    } else if unique[i].0 == key {
        Some(unique[i].1)
    } else {
        shared_table(unique, key, i + 1)
    }
}

fn find_table(unique: &Vec<(u64, u64)>, key: u64) -> (r: Option<u64>)
    ensures
        r == shared_table(unique@, key, 0),
{
    let mut i: usize = 0;
    while i < unique.len()
        invariant
            i <= unique@.len(),
            shared_table(unique@, key, 0) == shared_table(unique@, key, i as int),
        decreases unique@.len() - i,
    {
        if unique[i].0 == key {
            return Some(unique[i].1);
        }
        i += 1;
    }
    None
}

/// After the first `n` buffer binds were set in a table.
pub open spec fn table_filled(rt: RuntimeState, table: u64, binds: Seq<BindView>, n: int) -> RuntimeState
    decreases n,
{
    if n <= 0 {
        rt
    } else {
        let s = table_filled(rt, table, binds, n - 1);
        match binds[n - 1] {
            BindView::Buf { index, gpu_addr, .. } => s.with_op(
                DeviceOp::SetTableAddress { table, index, address: gpu_addr },
            ),
            BindView::Immediate { .. } => s,
        }
    }
}

/// After tables were built for the first `n` commands: one table per command,
/// and the distinct ones under their keys.
pub open spec fn tables_built(rt: RuntimeState, commands: Seq<CommandView>, n: int) -> (
    RuntimeState,
    Result<(Seq<u64>, Seq<(u64, u64)>), Seq<char>>,
)
    decreases n,
{
    if n <= 0 {
        (rt, Ok((Seq::empty(), Seq::empty())))
    } else {
        let (s, r) = tables_built(rt, commands, n - 1);
        match r {
            Err(m) => (s, Err(m)),
            Ok((tables, unique)) => {
                let binds = commands[n - 1].binds;
                let key = fingerprint(binds);
                match shared_table(unique, key, 0) {
                    Some(t) => (s, Ok((tables.push(t), unique))),
                    None => {
                        let (u, made) = s.table_created();
                        match made {
                            None => (
                                u,
                                Err(
                                    "DecodeIcb prebuilt newArgumentTable: no table number is left"@,
                                ),
                            ),
                            Some(t) => (
                                table_filled(u, t, binds, binds.len() as int),
                                Ok((tables.push(t), unique.push((key, t)))),
                            ),
                        }
                    },
                }
            },
        }
    }
}

proof fn lemma_tables_err(rt: RuntimeState, commands: Seq<CommandView>, i: int, n: int)
    requires
        0 <= i <= n,
        tables_built(rt, commands, i).1 is Err,
    ensures
        tables_built(rt, commands, n) == tables_built(rt, commands, i),
    decreases n,
{
    if i < n {
        lemma_tables_err(rt, commands, i, n - 1);
    }
}

fn fill_table(rt: &mut GpuRuntime, table: u64, binds: &Vec<DecodeIcbBind>)
    requires
        old(rt).inv(),
    ensures
        final(rt).inv(),
        final(rt)@ == table_filled(old(rt)@, table, bind_views(binds@), binds@.len() as int),
{
    let ghost views = bind_views(binds@);
    let mut i: usize = 0;
    while i < binds.len()
        invariant
            rt.inv(),
            i <= binds@.len(),
            views == bind_views(binds@),
            rt@ == table_filled(old(rt)@, table, views, i as int),
        decreases binds@.len() - i,
    {
        assert(views[i as int] == binds@[i as int]@);
        match &binds[i] {
            DecodeIcbBind::Buf { index, gpu_addr, .. } => {
                rt.note_op(
                    DeviceOp::SetTableAddress { table, index: *index, address: *gpu_addr },
                );
            },
            DecodeIcbBind::Immediate { .. } => {},
        }
        i += 1;
    }
}

/// Freezes the buffer addresses of every command into an argument table;
/// commands with the same binds share one.
fn build_prebuilt_tables(rt: &mut GpuRuntime, commands: &Vec<DecodeIcbCommand>) -> (r: Result<
    (Vec<u64>, usize),
    String,
>)
    requires
        old(rt).inv(),
    ensures
        final(rt).inv(),
        ({
            let (s, e) = tables_built(old(rt)@, command_views(commands@), commands@.len() as int);
            &&& final(rt)@ == s
            &&& match e {
                Ok((t, u)) => r is Ok && r->Ok_0.0@ == t && r->Ok_0.1 == u.len(),
                Err(m) => r is Err && r->Err_0@ == m,
            }
        }),
{
    let ghost views = command_views(commands@);
    let mut unique: Vec<(u64, u64)> = Vec::new();
    let mut tables: Vec<u64> = Vec::new();
    let mut i: usize = 0;
    while i < commands.len()
        invariant
            rt.inv(),
            i <= commands@.len(),
            views == command_views(commands@),
            tables_built(old(rt)@, views, i as int) == (
                rt@,
                Ok::<(Seq<u64>, Seq<(u64, u64)>), Seq<char>>((tables@, unique@)),
            ),
        decreases commands@.len() - i,
    {
        assert(views[i as int] == commands@[i as int]@);
        let key: u64 = buf_bind_fingerprint(&commands[i].binds);
        match find_table(&unique, key) {
            Some(t) => tables.push(t),
            None => match rt.create_table() {
                None => {
                    proof {
                        lemma_tables_err(old(rt)@, views, i + 1, views.len() as int);
                    }
                    return Err(
                        owned("DecodeIcb prebuilt newArgumentTable: no table number is left"),
                    );
                },
                Some(t) => {
                    fill_table(rt, t, &commands[i].binds);
                    unique.push((key, t));
                    tables.push(t);
                },
            },
        }
        i += 1;
    }
    Ok((tables, unique.len()))
}

// --------------------------------------------------------------- encode ----

/// Every pipeline can run from an ICB.
pub open spec fn all_indirect(commands: Seq<CommandView>) -> bool {
    forall|i: int| 0 <= i < commands.len() ==> (#[trigger] commands[i]).pipeline.icb
}

pub(crate) fn pipelines_indirect(commands: &Vec<DecodeIcbCommand>) -> (r: bool)
    ensures
        r == all_indirect(command_views(commands@)),
{
    let ghost views = command_views(commands@);
    let mut i: usize = 0;
    while i < commands.len()
        invariant
            i <= commands@.len(),
            views == command_views(commands@),
            forall|j: int| 0 <= j < i ==> (#[trigger] views[j]).pipeline.icb,
        decreases commands@.len() - i,
    {
        assert(views[i as int] == commands@[i as int]@);
        if !commands[i].pipeline.icb {
            return false;
        }
        i += 1;
    }
    true
}

/// After the first `n` buffer binds were frozen into command `at`.
pub open spec fn kernel_buffers(
    rt: RuntimeState,
    icb: u64,
    at: usize,
    binds: Seq<BindView>,
    n: int,
) -> RuntimeState
    decreases n,
{
    if n <= 0 {
        rt
    } else {
        let s = kernel_buffers(rt, icb, at, binds, n - 1);
        match binds[n - 1] {
            BindView::Buf { index, buf, byte_offset, .. } => s.with_op(
                DeviceOp::IcbKernelBuffer {
                    icb,
                    at,
                    index,
                    slab: buf.slab.id,
                    offset: byte_offset,
                },
            ),
            BindView::Immediate { .. } => s,
        }
    }
}

/// After one command was encoded into the ICB.
pub open spec fn command_encoded(
    rt: RuntimeState,
    icb: u64,
    at: usize,
    c: CommandView,
    freeze: bool,
) -> RuntimeState {
    let s = rt.with_op(DeviceOp::IcbReset { icb, at, pipeline: c.pipeline });
    let t = if freeze {
        let k = kernel_buffers(s, icb, at, c.binds, c.binds.len() as int);
        match c.tg_mem {
            Some((index, length)) => k.with_op(
                DeviceOp::IcbThreadgroupMemory { icb, at, index, length },
            ),
            None => k,
        }
    } else {
        s
    };
    t.with_op(
        DeviceOp::IcbDispatch { icb, at, groups: c.threadgroups, threads: c.threads_per_tg },
    )
}

/// After the first `n` commands were encoded into the ICB.
pub open spec fn encoded_to(
    rt: RuntimeState,
    icb: u64,
    commands: Seq<CommandView>,
    freeze: bool,
    n: int,
) -> RuntimeState
    decreases n,
{
    if n <= 0 {
        rt
    } else {
        command_encoded(
            encoded_to(rt, icb, commands, freeze, n - 1),
            icb,
            (n - 1) as usize,
            commands[n - 1],
            freeze,
        )
    }
}

fn encode_command(rt: &mut GpuRuntime, icb: u64, at: usize, c: &DecodeIcbCommand, freeze: bool)
    requires
        old(rt).inv(),
    ensures
        final(rt).inv(),
        final(rt)@ == command_encoded(old(rt)@, icb, at, c@, freeze),
{
    rt.note_op(DeviceOp::IcbReset { icb, at, pipeline: c.pipeline });
    if freeze {
        let ghost s = rt@;
        let ghost views = bind_views(c.binds@);
        let mut i: usize = 0;
        while i < c.binds.len()
            invariant
                rt.inv(),
                i <= c.binds@.len(),
                views == bind_views(c.binds@),
                rt@ == kernel_buffers(s, icb, at, views, i as int),
            decreases c.binds@.len() - i,
        {
            assert(views[i as int] == c.binds@[i as int]@);
            match &c.binds[i] {
                DecodeIcbBind::Buf { index, buf, byte_offset, .. } => {
                    rt.note_op(
                        DeviceOp::IcbKernelBuffer {
                            icb,
                            at,
                            index: *index,
                            slab: buf.slab.id,
                            offset: *byte_offset,
                        },
                    );
                },
                DecodeIcbBind::Immediate { .. } => {},
            }
            i += 1;
        }
        match c.tg_mem {
            Some((index, length)) => {
                rt.note_op(DeviceOp::IcbThreadgroupMemory { icb, at, index, length });
            },
            None => {},
        }
    }
    rt.note_op(
        DeviceOp::IcbDispatch { icb, at, groups: c.threadgroups, threads: c.threads_per_tg },
    );
}

fn encode_commands(rt: &mut GpuRuntime, icb: u64, commands: &Vec<DecodeIcbCommand>, freeze: bool)
    requires
        old(rt).inv(),
    ensures
        final(rt).inv(),
        final(rt)@ == encoded_to(
            old(rt)@,
            icb,
            command_views(commands@),
            freeze,
            commands@.len() as int,
        ),
{
    let ghost views = command_views(commands@);
    let mut i: usize = 0;
    while i < commands.len()
        invariant
            rt.inv(),
            i <= commands@.len(),
            views == command_views(commands@),
            rt@ == encoded_to(old(rt)@, icb, views, freeze, i as int),
        decreases commands@.len() - i,
    {
        assert(views[i as int] == commands@[i as int]@);
        encode_command(rt, icb, i, &commands[i], freeze);
        i += 1;
    }
}

// ---------------------------------------------------------- construction ---

/// A fresh graph over an ICB.
pub open spec fn fresh_graph(
    icb: u64,
    commands: Seq<CommandView>,
    tables: Seq<u64>,
    unique_tables: int,
    freeze: bool,
    optimized: bool,
) -> GraphView {
    GraphView {
        icb,
        commands,
        tables,
        unique_tables: unique_tables as usize,
        freeze,
        encoded: true,
        optimized,
        executes: 0,
        layer_graph: commands.len() >= MIN_LAYER_GRAPH_COMMANDS,
        probe: None,
        kept: Seq::empty(),
        last: no_tally(),
        buf_binds: sticky_counts(commands).0,
        skippable: sticky_counts(commands).1,
        coarsened: false,
        barriers_elided: 0,
    }
}

/// The argument tables a graph is built with: none where binds are frozen or
/// tables are switched off.
pub open spec fn graph_tables(rt: RuntimeState, commands: Seq<CommandView>, freeze: bool) -> (
    RuntimeState,
    Result<(Seq<u64>, Seq<(u64, u64)>), Seq<char>>,
) {
    if !freeze && crate::ab_flags::env_or(rt.ab.env, ENV_ICB_PREBUILT_TABLES@, true) {
        tables_built(rt, commands, commands.len() as int)
    } else {
        (rt, Ok((Seq::empty(), Seq::empty())))
    }
}

/// The buffers among the first `n` binds.
pub open spec fn bound_buffers(binds: Seq<BindView>, n: int) -> Seq<Storage>
    decreases n,
{
    if n <= 0 {
        Seq::empty()
    } else {
        match binds[n - 1] {
            BindView::Buf { buf, .. } => bound_buffers(binds, n - 1).push(buf),
            BindView::Immediate { .. } => bound_buffers(binds, n - 1),
        }
    }
}

/// The buffers that the first `n` commands bind, once for every bind.
pub open spec fn tape_buffers(commands: Seq<CommandView>, n: int) -> Seq<Storage>
    decreases n,
{
    if n <= 0 {
        Seq::empty()
    } else {
        let binds = commands[n - 1].binds;
        tape_buffers(commands, n - 1) + bound_buffers(binds, binds.len() as int)
    }
}

fn collect_buffers(commands: &Vec<DecodeIcbCommand>) -> (r: Vec<Storage>)
    ensures
        r@ == tape_buffers(command_views(commands@), commands@.len() as int),
{
    let ghost views = command_views(commands@);
    let mut r: Vec<Storage> = Vec::new();
    let mut i: usize = 0;
    assert(r@ =~= Seq::<Storage>::empty());
    while i < commands.len()
        invariant
            i <= commands@.len(),
            views == command_views(commands@),
            r@ == tape_buffers(views, i as int),
        decreases commands@.len() - i,
    {
        let c = &commands[i];
        let ghost before = r@;
        let ghost binds = bind_views(c.binds@);
        assert(views[i as int].binds == binds);
        assert(before + bound_buffers(binds, 0) =~= before);
        let mut j: usize = 0;
        while j < c.binds.len()
            invariant
                j <= c.binds@.len(),
                binds == bind_views(c.binds@),
                r@ == before + bound_buffers(binds, j as int),
            decreases c.binds@.len() - j,
        {
            assert(binds[j as int] == c.binds@[j as int]@);
            match &c.binds[j] {
                DecodeIcbBind::Buf { buf, .. } => {
                    r.push(*buf);
                    assert(r@ =~= before + bound_buffers(binds, j + 1));
                },
                DecodeIcbBind::Immediate { .. } => {},
            }
            j += 1;
        }
        i += 1;
    }
    r
}

/// The bind names storage that a handle keeps, or that is another runtime's.
pub open spec fn bind_lives(rt: RuntimeState, b: BindView) -> bool {
    match b {
        BindView::Buf { buf, .. } => buf.runtime == rt.id ==> rt.held.contains_key(buf.slab.id),
        BindView::Immediate { .. } => true,
    }
}

/// Every bind of every command does.
pub open spec fn tape_lives(rt: RuntimeState, commands: Seq<CommandView>) -> bool {
    forall|c: int, j: int|
        0 <= c < commands.len() && 0 <= j < commands[c].binds.len() ==> bind_lives(
            rt,
            #[trigger] commands[c].binds[j],
        )
}

fn commands_live(rt: &GpuRuntime, commands: &Vec<DecodeIcbCommand>) -> (r: bool)
    requires
        rt.inv(),
    ensures
        r == tape_lives(rt@, command_views(commands@)),
{
    let ghost views = command_views(commands@);
    let mut i: usize = 0;
    while i < commands.len()
        invariant
            rt.inv(),
            i <= commands@.len(),
            views == command_views(commands@),
            forall|c: int, j: int|
                0 <= c < i && 0 <= j < views[c].binds.len() ==> bind_lives(
                    rt@,
                    #[trigger] views[c].binds[j],
                ),
        decreases commands@.len() - i,
    {
        let c = &commands[i];
        let ghost binds = bind_views(c.binds@);
        assert(views[i as int].binds == binds);
        let mut j: usize = 0;
        while j < c.binds.len()
            invariant
                rt.inv(),
                j <= c.binds@.len(),
                i < commands@.len(),
                views == command_views(commands@),
                views[i as int].binds == binds,
                binds == bind_views(c.binds@),
                forall|k: int| 0 <= k < j ==> bind_lives(rt@, #[trigger] binds[k]),
            decreases c.binds@.len() - j,
        {
            assert(binds[j as int] == c.binds@[j as int]@);
            match &c.binds[j] {
                DecodeIcbBind::Buf { buf, .. } => {
                    if buf.runtime == rt.id() && !rt.holds_storage(buf) {
                        assert(!bind_lives(rt@, views[i as int].binds[j as int]));
                        return false;
                    }
                },
                DecodeIcbBind::Immediate { .. } => {},
            }
            j += 1;
        }
        i += 1;
    }
    true
}

/// A graph that has a handle of every buffer its commands bind.
pub open spec fn graph_kept(rt: RuntimeState, g: GraphView) -> (
    RuntimeState,
    Result<GraphView, Seq<char>>,
) {
    let all = tape_buffers(g.commands, g.commands.len() as int);
    let (s, kept) = rt.taken(all, all.len() as int);
    (s, Ok(GraphView { kept, ..g }))
}

/// Effect of [`DecodeIcb::from_commands_ex`].
pub open spec fn graph_step(rt: RuntimeState, commands: Seq<CommandView>, freeze: bool) -> (
    RuntimeState,
    Result<GraphView, Seq<char>>,
) {
    let n = commands.len() as int;
    if n == 0 {
        (rt, Err("DecodeIcb: empty command list"@))
    } else if !tape_lives(rt, commands) {
        (rt, Err("DecodeIcb: a command binds storage that was given up"@))
    } else {
        let (s, frozen) = if freeze {
            frozen_commands(rt, commands, n)
        } else {
            (rt, Ok(commands))
        };
        match frozen {
            Err(m) => (s, Err(m)),
            Ok(cmds) => {
                let (t, made) = s.icb_created(freeze, n as usize);
                match made {
                    None => (t, Err("newIndirectCommandBuffer failed (DecodeIcb)"@)),
                    Some(icb) => {
                        let (u, built) = graph_tables(t, cmds, freeze);
                        match built {
                            Err(m) => (u, Err(m)),
                            Ok((tables, unique)) => if all_indirect(cmds) {
                                graph_kept(
                                    encoded_to(u, icb, cmds, freeze, n),
                                    fresh_graph(
                                        icb,
                                        cmds,
                                        tables,
                                        unique.len() as int,
                                        freeze,
                                        false,
                                    ),
                                )
                            } else if freeze {
                                (
                                    u,
                                    Err(
                                        "DecodeIcb freeze_binds: not all pipelines supportIndirectCommandBuffers (capture with GEMMA_METAL_ICB_PIPELINES=1 / ICB_EXECUTE=1)"@,
                                    ),
                                )
                            } else {
                                graph_kept(
                                    u,
                                    fresh_graph(
                                        icb,
                                        cmds,
                                        tables,
                                        unique.len() as int,
                                        freeze,
                                        true,
                                    ),
                                )
                            },
                        }
                    },
                }
            },
        }
    }
}

/// `r` is the graph that `expected` describes.
pub open spec fn graph_outcome(
    r: Result<DecodeIcb, String>,
    expected: Result<GraphView, Seq<char>>,
) -> bool {
    match expected {
        Ok(g) => r is Ok && r->Ok_0@ == g,
        Err(m) => r is Err && r->Err_0@ == m,
    }
}

proof fn lemma_frozen_len(rt: RuntimeState, commands: Seq<CommandView>, n: int)
    requires
        0 <= n,
    ensures
        frozen_commands(rt, commands, n).1 matches Ok(c) ==> c.len() == n,
    decreases n,
{
    if n > 0 {
        lemma_frozen_len(rt, commands, n - 1);
    }
}

impl DecodeIcb {
    /// Builds a graph with explicit control over frozen binds. The graph has a
    /// handle of every buffer it binds until [`DecodeIcb::let_go`]. Commands are
    /// plain data, so one may name storage that was given up since: such a tape
    /// is refused.
    pub fn from_commands_ex(
        rt: &mut GpuRuntime,
        commands: Vec<DecodeIcbCommand>,
        freeze_binds: bool,
    ) -> (r: Result<DecodeIcb, String>)
        requires
            old(rt).inv(),
        ensures
            final(rt).inv(),
            ({
                let (s, e) = graph_step(old(rt)@, command_views(commands@), freeze_binds);
                final(rt)@ == s && graph_outcome(r, e)
            }),
    {
        let n: usize = commands.len();
        if n == 0 {
            return Err(owned("DecodeIcb: empty command list"));
        }
        if !commands_live(rt, &commands) {
            return Err(owned("DecodeIcb: a command binds storage that was given up"));
        }
        proof {
            lemma_frozen_len(rt@, command_views(commands@), n as int);
        }
        let commands: Vec<DecodeIcbCommand> = if freeze_binds {
            materialize_immediates(rt, commands)?
        } else {
            commands
        };
        let icb: u64 = match rt.create_icb(freeze_binds, n) {
            Some(i) => i,
            None => {
                return Err(owned("newIndirectCommandBuffer failed (DecodeIcb)"));
            },
        };
        let (buf_binds, skippable): (u64, u64) = analyze_sticky_buf_binds(&commands);
        let tabled = !freeze_binds && prebuilt_tables_enabled(rt.env());
        let (tables, unique_tables): (Vec<u64>, usize) = if tabled {
            build_prebuilt_tables(rt, &commands)?
        } else {
            (Vec::new(), 0)
        };
        let indirect = pipelines_indirect(&commands);
        if !indirect && freeze_binds {
            return Err(
                owned(
                    "DecodeIcb freeze_binds: not all pipelines supportIndirectCommandBuffers (capture with GEMMA_METAL_ICB_PIPELINES=1 / ICB_EXECUTE=1)",
                ),
            );
        }
        if indirect {
            encode_commands(rt, icb, &commands, freeze_binds);
        }
        let layer_graph = commands.len() >= MIN_LAYER_GRAPH_COMMANDS;
        let all = collect_buffers(&commands);
        let kept = rt.take_handles(&all);
        Ok(
            DecodeIcb {
                icb,
                commands,
                tables,
                unique_tables,
                freeze: freeze_binds,
                encoded: true,
                optimized: !indirect,
                executes: 0,
                layer_graph,
                probe: None,
                kept,
                last: new_tally(),
                buf_binds,
                skippable,
                coarsened: false,
                barriers_elided: 0,
            },
        )
    }

    /// Builds a graph; the freeze-binds flag decides.
    pub fn from_commands(rt: &mut GpuRuntime, commands: Vec<DecodeIcbCommand>) -> (r: Result<
        DecodeIcb,
        String,
    >)
        requires
            old(rt).inv(),
        ensures
            final(rt).inv(),
            ({
                let (s, e) = graph_step(
                    freeze_read(old(rt)@),
                    command_views(commands@),
                    old(rt)@.icb.freeze_binds_value(old(rt)@.ab.env),
                );
                final(rt)@ == s && graph_outcome(r, e)
            }),
    {
        let freeze = rt.read_icb_freeze_binds();
        DecodeIcb::from_commands_ex(rt, commands, freeze)
    }
}

/// After the freeze-binds flag was read.
pub open spec fn freeze_read(rt: RuntimeState) -> RuntimeState {
    RuntimeState {
        icb: IcbFlags { freeze_binds: Some(rt.icb.freeze_binds_value(rt.ab.env)), ..rt.icb },
        ..rt
    }
}

/// Builds an ICB-capable pipeline for a kernel; overlay libraries come first.
pub fn pipeline_icb(rt: &mut GpuRuntime, fn_name: &str) -> (r: Result<Pipeline, String>)
    requires
        old(rt).inv(),
    ensures
        final(rt).inv(),
        final(rt)@ == old(rt)@.icb_piped(fn_name@).0,
        outcome(r, old(rt)@.icb_piped(fn_name@).1),
{
    rt.build_icb_pipeline(fn_name)
}

// ------------------------------------------------------------ copy chain ---

/// A bind of a whole buffer.
pub open spec fn whole(index: usize, buf: Storage) -> BindView {
    BindView::Buf { index, buf, byte_offset: 0, gpu_addr: buf_address(buf, 0) }
}

fn whole_bind(index: usize, buf: &Storage) -> (r: DecodeIcbBind)
    ensures
        r@ == whole(index, *buf),
{
    DecodeIcbBind::Buf { index, buf: *buf, byte_offset: 0, gpu_addr: buf_gpu_addr(buf, 0) }
}

/// One copy of `n` floats.
pub open spec fn hop(
    p: Pipeline,
    n: usize,
    from: Storage,
    to: Storage,
    count: Storage,
    barrier_after: bool,
) -> CommandView {
    CommandView {
        pipeline: p,
        threadgroups: size3(groups_for(p.thread_execution_width, n), 1, 1),
        threads_per_tg: size3(lanes_for(p.thread_execution_width, n), 1, 1),
        binds: seq![whole(0, from), whole(1, to), whole(2, count)],
        tg_mem: None,
        owned_immediates: Seq::empty(),
        barrier_after,
    }
}

fn copy_command(
    p: &Pipeline,
    n: usize,
    from: &Storage,
    to: &Storage,
    count: &Storage,
    barrier_after: bool,
) -> (r: DecodeIcbCommand)
    requires
        n > 0,
    ensures
        r@ == hop(*p, n, *from, *to, *count, barrier_after),
{
    let lanes: usize = max_usize(min_usize(p.thread_execution_width, n), 1);
    let mut binds: Vec<DecodeIcbBind> = Vec::new();
    binds.push(whole_bind(0, from));
    binds.push(whole_bind(1, to));
    binds.push(whole_bind(2, count));
    let r = DecodeIcbCommand {
        pipeline: *p,
        threadgroups: mtl_size(div_ceil(n, lanes), 1, 1),
        threads_per_tg: mtl_size(lanes, 1, 1),
        binds,
        tg_mem: None,
        owned_immediates: Vec::new(),
        barrier_after,
    };
    assert(r@ =~= hop(*p, n, *from, *to, *count, barrier_after)) by {
        assert(bind_views(r.binds@) =~= seq![whole(0, *from), whole(1, *to), whole(2, *count)]);
    }
    r
}

/// After the four buffers of a copy chain of `n` floats were asked for.
pub open spec fn chain_storage(rt: RuntimeState, n: usize) -> (
    RuntimeState,
    Result<(Storage, Storage, Storage, Storage), Seq<char>>,
) {
    let nbytes = (n * 4) as usize;
    let (s1, a) = rt.allocated(nbytes, BufferKind::Hot);
    let (s2, b) = s1.allocated(nbytes, BufferKind::Hot);
    let (s3, c) = s2.allocated(nbytes, BufferKind::Hot);
    let (s4, k) = s3.allocated(4, BufferKind::Hot);
    match (a, b, c, k) {
        (Err(m), _, _, _) => (s1, Err(m)),
        (_, Err(m), _, _) => (s2, Err(m)),
        (_, _, Err(m), _) => (s3, Err(m)),
        (_, _, _, Err(m)) => (s4, Err(m)),
        (Ok(a), Ok(b), Ok(c), Ok(k)) => (s4, Ok((a, b, c, k))),
    }
}

/// After the host filled the buffers of a copy chain: the count as a word, the
/// source 1, 2, 3 and so on, the rest zero.
pub open spec fn chain_filled(
    rt: RuntimeState,
    n: usize,
    a: Storage,
    b: Storage,
    c: Storage,
    k: Storage,
) -> RuntimeState {
    let s = RuntimeState { busy: true, ..rt }.committed(true).host_written(
        k.slab.id,
        word_bytes((n as u64 % 0x1_0000_0000) as u32),
    );
    RuntimeState { busy: false, ..s }.with_op(
        DeviceOp::HostRamp { slab: a.slab.id, floats: n },
    ).with_op(DeviceOp::Zero { slab: b.slab.id, offset: 0, len: (n * 4) as usize }).with_op(
        DeviceOp::Zero { slab: c.slab.id, offset: 0, len: (n * 4) as usize },
    )
}

/// Effect of [`DecodeIcb::mini_copy_chain_ex`].
pub open spec fn chain_step(rt: RuntimeState, n: usize, freeze: bool) -> (
    RuntimeState,
    Result<(GraphView, Storage), Seq<char>>,
) {
    if n == 0 {
        (rt, Err("DecodeIcb::mini_copy_chain: n > 0"@))
    } else {
        let (s, storage) = chain_storage(rt, n);
        match (storage, s.access_problem()) {
            (Err(m), _) => (s, Err(m)),
            (_, Some(m)) => (s, Err(m)),
            (Ok((a, b, c, k)), None) => {
                let (t, pipe) = chain_filled(s, n, a, b, c, k).icb_piped("copy_f32"@);
                match pipe {
                    Err(m) => (t, Err(m)),
                    Ok(p) => {
                        let (u, g) = graph_step(
                            t,
                            seq![hop(p, n, a, b, k, true), hop(p, n, b, c, k, false)],
                            freeze,
                        );
                        match g {
                            Err(m) => (u, Err(m)),
                            Ok(g) => (u.retired(a).retired(b).retired(k), Ok((g, c))),
                        }
                    },
                }
            },
        }
    }
}

/// `r` is the copy chain that `expected` describes, with its last buffer.
pub open spec fn chain_outcome(
    r: Result<(DecodeIcb, GpuBuffer), String>,
    expected: Result<(GraphView, Storage), Seq<char>>,
) -> bool {
    match expected {
        Ok((g, c)) => r is Ok && r->Ok_0.0@ == g && r->Ok_0.1@ == c,
        Err(m) => r is Err && r->Err_0@ == m,
    }
}

impl DecodeIcb {
    /// Two-hop copy graph, with explicit control over frozen binds. Returns the
    /// graph and the buffer its last copy fills.
    pub fn mini_copy_chain_ex(rt: &mut GpuRuntime, n: usize, freeze_binds: bool) -> (r: Result<
        (DecodeIcb, GpuBuffer),
        String,
    >)
        requires
            old(rt).inv(),
            n * 4 <= usize::MAX,
        ensures
            final(rt).inv(),
            ({
                let (s, e) = chain_step(old(rt)@, n, freeze_binds);
                final(rt)@ == s && chain_outcome(r, e)
            }),
    {
        if n == 0 {
            return Err(owned("DecodeIcb::mini_copy_chain: n > 0"));
        }
        let first = rt.alloc_buffer_hot(n * 4)?;
        let second = rt.alloc_buffer_hot(n * 4)?;
        let last = rt.alloc_buffer_hot(n * 4)?;
        let length = rt.alloc_buffer_hot(4)?;
        let (a, b, c, k) = (first.at(), second.at(), last.at(), length.at());
        let ghost s = rt@;
        rt.host_access()?;
        let count: u32 = (n as u64 % 0x1_0000_0000) as u32;
        let mut word: Vec<u8> = Vec::new();
        push_word(&mut word, count);
        assert(word@ =~= word_bytes(count));
        rt.host_write(k.slab.id, word.as_slice());
        rt.release_access();
        rt.note_op(DeviceOp::HostRamp { slab: a.slab.id, floats: n });
        rt.note_op(DeviceOp::Zero { slab: b.slab.id, offset: 0, len: n * 4 });
        rt.note_op(DeviceOp::Zero { slab: c.slab.id, offset: 0, len: n * 4 });
        assert(rt@ == chain_filled(s, n, a, b, c, k));
        let p = pipeline_icb(rt, "copy_f32")?;
        let mut commands: Vec<DecodeIcbCommand> = Vec::new();
        commands.push(copy_command(&p, n, &a, &b, &k, true));
        commands.push(copy_command(&p, n, &b, &c, &k, false));
        assert(command_views(commands@) =~= seq![
            hop(p, n, a, b, k, true),
            hop(p, n, b, c, k, false),
        ]);
        let g = DecodeIcb::from_commands_ex(rt, commands, freeze_binds)?;
        rt.recycle_buffer(first);
        rt.recycle_buffer(second);
        rt.recycle_buffer(length);
        Ok((g, last))
    }

    /// Two-hop copy graph; the freeze-binds flag decides.
    pub fn mini_copy_chain(rt: &mut GpuRuntime, n: usize) -> (r: Result<
        (DecodeIcb, GpuBuffer),
        String,
    >)
        requires
            old(rt).inv(),
            n * 4 <= usize::MAX,
        ensures
            final(rt).inv(),
            ({
                let (s, e) = chain_step(
                    freeze_read(old(rt)@),
                    n,
                    old(rt)@.icb.freeze_binds_value(old(rt)@.ab.env),
                );
                final(rt)@ == s && chain_outcome(r, e)
            }),
    {
        let freeze = rt.read_icb_freeze_binds();
        DecodeIcb::mini_copy_chain_ex(rt, n, freeze)
    }
}

// --------------------------------------------------------------- reading ---

/// Barrier markers among the first `n` commands.
pub open spec fn markers_to(commands: Seq<CommandView>, n: int) -> int
    decreases n,
{
    if n <= 0 {
        0
    } else {
        markers_to(commands, n - 1) + (if commands[n - 1].barrier_after {
            1int
        } else {
            0
        })
    }
}

/// The buffers that the first `n` commands own.
pub open spec fn owned_buffers(commands: Seq<CommandView>, n: int) -> Seq<Storage>
    decreases n,
{
    if n <= 0 {
        Seq::empty()
    } else {
        owned_buffers(commands, n - 1) + commands[n - 1].owned_immediates
    }
}

impl GraphView {
    /// Everything the graph has a handle of: what it binds, what its commands own,
    /// and the buffer it samples.
    pub open spec fn holdings(self) -> Seq<Storage> {
        self.kept + owned_buffers(self.commands, self.commands.len() as int) + match self.probe {
            Some((b, _)) => seq![b],
            None => Seq::empty(),
        }
    }

    /// Barrier markers of the tape.
    pub open spec fn markers(self) -> int {
        markers_to(self.commands, self.commands.len() as int)
    }

    /// The status line.
    pub open spec fn status(self) -> Seq<char> {
        "decode_icb cmds="@ + decimal(self.commands.len()) + " layer_graph="@ + bool_text(
            self.layer_graph,
        ) + " encoded="@ + bool_text(self.encoded) + " optimized="@ + bool_text(self.optimized)
            + " executes="@ + decimal(self.executes as nat) + " sticky_buf="@ + decimal(
            self.skippable as nat,
        ) + "/"@ + decimal(self.buf_binds as nat) + " prebuilt="@ + decimal(self.tables.len())
            + "/"@ + decimal(self.unique_tables as nat) + " freeze="@ + bool_text(self.freeze)
            + " barriers="@ + decimal(self.markers() as nat) + " coarse_elided="@ + decimal(
            self.barriers_elided as nat,
        ) + " last_setAddress="@ + decimal(self.last.set_address as nat) + "/"@ + decimal(
            self.last.binds as nat,
        ) + " last_setArgTable="@ + decimal(self.last.set_table as nat) + " elided="@ + decimal(
            self.last.elided as nat,
        ) + " last_execute_icb="@ + decimal(self.last.icb_calls as nat) + "/"@ + decimal(
            self.last.icb_commands as nat,
        )
    }
}

impl DecodeIcb {
    /// Samples a buffer after each replayed command while triage is on. Returns
    /// the handle of the buffer that was sampled before.
    pub fn set_triage_probe(&mut self, buf: GpuBuffer, n_f32: usize) -> (r: Option<GpuBuffer>)
        ensures
            final(self)@ == (GraphView { probe: Some((buf@, n_f32)), ..old(self)@ }),
            match old(self)@.probe {
                Some((b, _)) => r is Some && r->0@ == b,
                None => r is None,
            },
    {
        let before = self.probe.take();
        self.probe = Some((buf, n_f32));
        match before {
            Some((b, _)) => Some(b),
            None => None,
        }
    }

    /// Ends the graph: its handles are given up.
    pub fn let_go(self, rt: &mut GpuRuntime)
        requires
            old(rt).inv(),
        ensures
            final(rt).inv(),
            final(rt)@ == old(rt)@.let_go(self@.holdings()),
    {
        let ghost g = self@;
        let mut all = self.kept;
        let mut i: usize = 0;
        assert(all@ =~= g.kept + owned_buffers(g.commands, 0));
        while i < self.commands.len()
            invariant
                i <= self.commands@.len(),
                g.commands == command_views(self.commands@),
                all@ == g.kept + owned_buffers(g.commands, i as int),
            decreases self.commands@.len() - i,
        {
            let c = &self.commands[i];
            assert(g.commands[i as int] == self.commands@[i as int]@);
            let ghost before = all@;
            let ghost owned = storages(c.owned_immediates@);
            assert(all@ =~= before + owned.take(0));
            let mut j: usize = 0;
            while j < c.owned_immediates.len()
                invariant
                    j <= c.owned_immediates@.len(),
                    owned == storages(c.owned_immediates@),
                    all@ == before + owned.take(j as int),
                decreases c.owned_immediates@.len() - j,
            {
                all.push(c.owned_immediates[j].at());
                assert(all@ =~= before + owned.take(j + 1));
                j += 1;
            }
            assert(owned.take(j as int) =~= owned);
            assert(all@ =~= g.kept + owned_buffers(g.commands, i + 1));
            i += 1;
        }
        match &self.probe {
            Some((b, _)) => all.push(b.at()),
            None => {},
        }
        assert(all@ =~= g.holdings());
        rt.give_up(&all);
    }

    /// Commands of the tape.
    pub fn command_count(&self) -> (r: usize)
        ensures
            r == self@.commands.len(),
    {
        self.commands.len()
    }

    /// Commands that a barrier follows.
    pub fn barrier_after_count(&self) -> (r: usize)
        ensures
            r == self@.markers(),
    {
        let ghost views = self@.commands;
        let mut n: usize = 0;
        let mut i: usize = 0;
        while i < self.commands.len()
            invariant
                i <= self.commands@.len(),
                views == command_views(self.commands@),
                n <= i,
                n == markers_to(views, i as int),
            decreases self.commands@.len() - i,
        {
            assert(views[i as int] == self.commands@[i as int]@);
            if self.commands[i].barrier_after {
                n += 1;
            }
            i += 1;
        }
        n
    }

    /// The tape was encoded.
    pub fn encoded(&self) -> (r: bool)
        ensures
            r == self@.encoded,
    {
        self.encoded
    }

    /// Completed replays.
    pub fn execute_count(&self) -> (r: u64)
        ensures
            r == self@.executes,
    {
        self.executes
    }

    /// The tape is long enough to be a recorded layer graph.
    pub fn is_layer_graph(&self) -> (r: bool)
        ensures
            r == self@.layer_graph,
    {
        self.layer_graph
    }

    /// Buffer binds are frozen into the ICB.
    pub fn freeze_binds(&self) -> (r: bool)
        ensures
            r == self@.freeze,
    {
        self.freeze
    }

    /// Distinct argument tables.
    pub fn unique_prebuilt_table_count(&self) -> (r: usize)
        ensures
            r == self@.unique_tables,
    {
        self.unique_tables
    }

    /// Buffer binds a sticky replay can skip.
    pub fn sticky_skippable_binds(&self) -> (r: u64)
        ensures
            r == self@.skippable,
    {
        self.skippable
    }

    /// Buffer binds of the tape.
    pub fn total_buf_binds(&self) -> (r: u64)
        ensures
            r == self@.buf_binds,
    {
        self.buf_binds
    }

    /// Argument tables, one per command, or none.
    pub fn prebuilt_table_count(&self) -> (r: usize)
        ensures
            r == self@.tables.len(),
    {
        self.tables.len()
    }

    /// Last replay: slots set, and binds considered.
    pub fn last_set_address_stats(&self) -> (r: (u64, u64))
        ensures
            r == (self@.last.set_address, self@.last.binds),
    {
        (self.last.set_address, self.last.binds)
    }

    /// Last replay: table switches, and buffer binds that needed no slot set.
    pub fn last_prebuilt_stats(&self) -> (r: (u64, u64))
        ensures
            r == (self@.last.set_table, self@.last.elided),
    {
        (self.last.set_table, self.last.elided)
    }

    /// Last replay: ranges run from the ICB, and commands they covered.
    pub fn last_execute_icb_stats(&self) -> (r: (u64, u64))
        ensures
            r == (self@.last.icb_calls, self@.last.icb_commands),
    {
        (self.last.icb_calls, self.last.icb_commands)
    }

    /// Barrier markers dropped by coarse ranges.
    pub fn barriers_elided(&self) -> (r: u64)
        ensures
            r == self@.barriers_elided,
    {
        self.barriers_elided
    }

    /// Drops the barrier markers that order nothing; returns how many.
    pub fn elide_non_interfering_barriers(commands: &mut Vec<DecodeIcbCommand>) -> (r: u64)
        ensures
            command_views(final(commands)@) == elided(command_views(old(commands)@)),
            r == elided_count(command_views(old(commands)@)),
    {
        crate::decode_icb::tape::elide_non_interfering_barriers(commands)
    }

    /// One line that sums the graph up.
    pub fn status_line(&self) -> (r: String)
        ensures
            r@ == self@.status(),
    {
        let m = Msg::new("decode_icb cmds=").num(self.commands.len()).text(" layer_graph=").text(
            bool_str(self.layer_graph),
        ).text(" encoded=").text(bool_str(self.encoded)).text(" optimized=").text(
            bool_str(self.optimized),
        ).text(" executes=").num64(self.executes);
        let m = m.text(" sticky_buf=").num64(self.skippable).text("/").num64(self.buf_binds).text(
            " prebuilt=",
        ).num(self.tables.len()).text("/").num(self.unique_tables).text(" freeze=").text(
            bool_str(self.freeze),
        );
        let m = m.text(" barriers=").num(self.barrier_after_count()).text(" coarse_elided=").num64(
            self.barriers_elided,
        ).text(" last_setAddress=").num64(self.last.set_address).text("/").num64(self.last.binds);
        m.text(" last_setArgTable=").num64(self.last.set_table).text(" elided=").num64(
            self.last.elided,
        ).text(" last_execute_icb=").num64(self.last.icb_calls).text("/").num64(
            self.last.icb_commands,
        ).done()
    }
}

} // verus!
