//! What a graph holds: every buffer that its commands bind.

use vstd::prelude::*;

use crate::capture::{BindView, CommandView};
use crate::decode_icb::graph::{
    all_indirect, bind_lives, bound_buffers, command_encoded, encoded_to, frozen_binds,
    frozen_commands, graph_step, graph_tables, kernel_buffers, table_filled, tables_built,
    tape_buffers, tape_lives,
};
use crate::device::DeviceOp;
use crate::runtime::storage::lemma_taken_holds;
use crate::sizes::most;
use crate::state::{stored, RuntimeState};
use crate::tensor::BufferKind;

verus! {

/// What `s` held, `t` holds, and every count is one or more.
spec fn keeps(s: RuntimeState, t: RuntimeState) -> bool {
    &&& t.id == s.id
    &&& forall|id: u64| #[trigger] s.held.contains_key(id) ==> t.held.contains_key(id)
    &&& counted(s) ==> counted(t)
}

spec fn counted(s: RuntimeState) -> bool {
    forall|id: u64| #[trigger] s.held.contains_key(id) ==> s.held[id].owners > 0
}

proof fn lemma_allocation_keeps(s: RuntimeState, nbytes: usize, kind: BufferKind)
    ensures
        keeps(s, s.allocated(nbytes, kind).0),
        s.allocated(nbytes, kind).1 matches Ok(b) ==> s.allocated(nbytes, kind).0.holds(b),
{
    reveal(RuntimeState::allocated);
}

proof fn lemma_frozen_binds_live(rt: RuntimeState, binds: Seq<BindView>, n: int)
    requires
        0 <= n <= binds.len(),
        forall|j: int| 0 <= j < binds.len() ==> bind_lives(rt, #[trigger] binds[j]),
    ensures
        keeps(rt, frozen_binds(rt, binds, n).0),
        frozen_binds(rt, binds, n).1 matches Ok((done, owned)) ==> {
            &&& done.len() == n
            &&& forall|j: int|
                0 <= j < n ==> bind_lives(frozen_binds(rt, binds, n).0, #[trigger] done[j])
        },
    decreases n,
{
    if n > 0 {
        lemma_frozen_binds_live(rt, binds, n - 1);
        let (s, r) = frozen_binds(rt, binds, n - 1);
        if r is Ok {
            match binds[n - 1] {
                BindView::Buf { .. } => {
                    assert(bind_lives(rt, binds[n - 1]));
                },
                BindView::Immediate { bytes, .. } => {
                    lemma_allocation_keeps(
                        s,
                        most(bytes.len() as int, 4) as usize,
                        BufferKind::Hot,
                    );
                },
            }
        }
    }
}

proof fn lemma_frozen_commands_live(rt: RuntimeState, commands: Seq<CommandView>, n: int)
    requires
        0 <= n <= commands.len(),
        tape_lives(rt, commands),
    ensures
        keeps(rt, frozen_commands(rt, commands, n).0),
        frozen_commands(rt, commands, n).1 matches Ok(done) ==> tape_lives(
            frozen_commands(rt, commands, n).0,
            done,
        ),
    decreases n,
{
    if n > 0 {
        lemma_frozen_commands_live(rt, commands, n - 1);
        let (s, r) = frozen_commands(rt, commands, n - 1);
        if r is Ok {
            let binds = commands[n - 1].binds;
            assert forall|j: int| 0 <= j < binds.len() implies bind_lives(
                s,
                #[trigger] binds[j],
            ) by {
                assert(bind_lives(rt, commands[n - 1].binds[j]));
            }
            lemma_frozen_binds_live(s, binds, binds.len() as int);
            let (t, all) = frozen_commands(rt, commands, n);
            if all is Ok {
                let done = all->Ok_0;
                assert forall|c: int, j: int|
                    0 <= c < done.len() && 0 <= j < done[c].binds.len() implies bind_lives(
                    t,
                    #[trigger] done[c].binds[j],
                ) by {
                    if c < done.len() - 1 {
                        assert(bind_lives(s, r->Ok_0[c].binds[j]));
                    }
                }
            }
        }
    }
}

proof fn lemma_filled(rt: RuntimeState, table: u64, binds: Seq<BindView>, n: int)
    ensures
        table_filled(rt, table, binds, n).held == rt.held,
        table_filled(rt, table, binds, n).id == rt.id,
    decreases n,
{
    if n > 0 {
        lemma_filled(rt, table, binds, n - 1);
    }
}

proof fn lemma_tabled(rt: RuntimeState, commands: Seq<CommandView>, n: int)
    ensures
        tables_built(rt, commands, n).0.held == rt.held,
        tables_built(rt, commands, n).0.id == rt.id,
    decreases n,
{
    if n > 0 {
        lemma_tabled(rt, commands, n - 1);
        let (s, r) = tables_built(rt, commands, n - 1);
        let binds = commands[n - 1].binds;
        let (u, made) = s.table_created();
        if made is Some {
            lemma_filled(u, made->0, binds, binds.len() as int);
        }
    }
}

proof fn lemma_kernel_buffers(rt: RuntimeState, icb: u64, at: usize, binds: Seq<BindView>, n: int)
    ensures
        kernel_buffers(rt, icb, at, binds, n).held == rt.held,
        kernel_buffers(rt, icb, at, binds, n).id == rt.id,
    decreases n,
{
    if n > 0 {
        lemma_kernel_buffers(rt, icb, at, binds, n - 1);
    }
}

proof fn lemma_encoded(
    rt: RuntimeState,
    icb: u64,
    commands: Seq<CommandView>,
    freeze: bool,
    n: int,
)
    ensures
        encoded_to(rt, icb, commands, freeze, n).held == rt.held,
        encoded_to(rt, icb, commands, freeze, n).id == rt.id,
    decreases n,
{
    if n > 0 {
        lemma_encoded(rt, icb, commands, freeze, n - 1);
        let s = encoded_to(rt, icb, commands, freeze, n - 1);
        let c = commands[n - 1];
        let at = (n - 1) as usize;
        let t = s.with_op(DeviceOp::IcbReset { icb, at, pipeline: c.pipeline });
        lemma_kernel_buffers(t, icb, at, c.binds, c.binds.len() as int);
        assert(command_encoded(s, icb, at, c, freeze).held == s.held);
    }
}

proof fn lemma_bound(binds: Seq<BindView>, n: int, j: int) -> (i: int)
    requires
        0 <= j < n <= binds.len(),
        binds[j] is Buf,
    ensures
        0 <= i < bound_buffers(binds, n).len(),
        bound_buffers(binds, n)[i] == binds[j]->buf,
    decreases n,
{
    if j == n - 1 {
        bound_buffers(binds, n).len() - 1
    } else {
        lemma_bound(binds, n - 1, j)
    }
}

proof fn lemma_on_tape(commands: Seq<CommandView>, n: int, c: int, j: int) -> (i: int)
    requires
        0 <= c < n <= commands.len(),
        0 <= j < commands[c].binds.len(),
        commands[c].binds[j] is Buf,
    ensures
        0 <= i < tape_buffers(commands, n).len(),
        tape_buffers(commands, n)[i] == commands[c].binds[j]->buf,
    decreases n,
{
    if c == n - 1 {
        let binds = commands[c].binds;
        tape_buffers(commands, n - 1).len() + lemma_bound(binds, binds.len() as int, j)
    } else {
        lemma_on_tape(commands, n - 1, c, j)
    }
}

/// A graph keeps what it binds: storage of its runtime that one of its commands
/// names is held once the graph is built, and stays held when any other handle of
/// it is given up.
pub proof fn law_graphs_hold_what_they_bind(
    rt: RuntimeState,
    commands: Seq<CommandView>,
    freeze: bool,
    c: int,
    j: int,
)
    requires
        rt.wf(),
        graph_step(rt, commands, freeze).1 matches Ok(g) && 0 <= c < g.commands.len() && 0 <= j
            < g.commands[c].binds.len() && g.commands[c].binds[j] is Buf
            && g.commands[c].binds[j]->buf.runtime == rt.id,
    ensures
        ({
            let (t, r) = graph_step(rt, commands, freeze);
            let b = r->Ok_0.commands[c].binds[j]->buf;
            t.holds(b) && t.retired(b).holds(b)
        }),
{
    let n = commands.len() as int;
    let g = graph_step(rt, commands, freeze).1->Ok_0;
    let b = g.commands[c].binds[j]->buf;
    assert(counted(rt)) by {
        reveal(stored);
    }
    lemma_frozen_commands_live(rt, commands, n);
    let (s, frozen) = if freeze {
        frozen_commands(rt, commands, n)
    } else {
        (rt, Ok(commands))
    };
    let cmds = frozen->Ok_0;
    assert(bind_lives(s, cmds[c].binds[j]));
    let (t, made) = s.icb_created(freeze, n as usize);
    lemma_tabled(t, cmds, cmds.len() as int);
    let u = graph_tables(t, cmds, freeze).0;
    lemma_encoded(u, made->0, cmds, freeze, n);
    let v = if all_indirect(cmds) {
        encoded_to(u, made->0, cmds, freeze, n)
    } else {
        u
    };
    let all = tape_buffers(cmds, cmds.len() as int);
    let i = lemma_on_tape(cmds, cmds.len() as int, c, j);
    assert(v.holds(b) && v.held[b.slab.id].owners > 0);
    lemma_taken_holds(v, all, all.len() as int, b);
    reveal(RuntimeState::retired);
}

} // verus!
