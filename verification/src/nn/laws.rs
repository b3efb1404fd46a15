//! What the kernels of this module get from an accepted call: which buffer in
//! which slot, which numbers, how many threads, and how large every buffer is that
//! the kernel reaches.

use vstd::prelude::*;

use crate::device::Pipeline;
use crate::dispatch::Bind;
use crate::nn::check::{
    at, disjoint_problem, float_at, reduction_lanes, require_problem, row_lanes, same_storage,
    word_at,
};
use crate::nn::norm::{
    mlp_gelu_tanh_bf16_step, mlp_gelu_tanh_step, mlp_silu_step, rms_norm_bf16_step,
    rms_norm_f32_step, rms_norm_residual_add_f32_step, row_reduce_step, scale_f32_inplace_step,
};
use crate::seen::{
    a_group_each, carried, carries, covers, dispatch, from_slot, has_room, in_view, lemma_carried,
    lemma_carried_joined, lemma_named_launch, lemma_row_covers, ran, rising, slot_of, Launch,
};
use crate::sizes::{is_pow2, least, most, pow2_ceil, pow2_floor};
use crate::state::RuntimeState;
use crate::tensor::Storage;

verus! {

// --------------------------------------------------------------- helpers ---

/// A one-dimensional launch by name.
pub proof fn lemma_kernel_1d(rt: RuntimeState, name: Seq<char>, n: usize, binds: Seq<Bind>)
    requires
        n > 0,
        rt.kernel_1d(name, n, binds).1 is None,
        in_view(rt, rt.kernel_1d(name, n, binds).0),
    ensures
        ({
            let t = rt.kernel_1d(name, n, binds).0;
            &&& ran(rt, t, name)
            &&& covers(dispatch(rt, t), n as int)
            &&& crate::seen::carries_all(dispatch(rt, t), binds)
            &&& crate::seen::starts(rt.ops, t.ops)
            &&& crate::seen::steady(rt, t)
        }),
{
    let p = rt.piped(name).1->Ok_0;
    let groups = crate::device::size3(
        crate::dispatch::groups_for(p.thread_execution_width, n),
        1,
        1,
    );
    let threads = crate::device::size3(
        crate::dispatch::lanes_for(p.thread_execution_width, n),
        1,
        1,
    );
    lemma_named_launch(rt, name, binds, None, groups, threads);
    let t = rt.kernel_1d(name, n, binds).0;
    lemma_row_covers(dispatch(rt, t), p.thread_execution_width, n);
}

/// A launch of groups by name.
pub proof fn lemma_kernel_groups(
    rt: RuntimeState,
    name: Seq<char>,
    binds: Seq<Bind>,
    tg_mem: Option<(usize, usize)>,
    groups: usize,
    rows: usize,
    threads: spec_fn(Pipeline) -> usize,
)
    requires
        groups > 0,
        rows > 0,
        rt.kernel_groups(name, binds, tg_mem, groups, rows, threads).1 is None,
        in_view(rt, rt.kernel_groups(name, binds, tg_mem, groups, rows, threads).0),
        rt.piped(name).1 matches Ok(p) ==> threads(p) > 0,
    ensures
        ({
            let t = rt.kernel_groups(name, binds, tg_mem, groups, rows, threads).0;
            let l = dispatch(rt, t);
            &&& ran(rt, t, name)
            &&& l.groups.width == groups
            &&& l.groups.height == rows
            &&& l.groups.depth == 1
            &&& l.threads.width == threads(l.scene.pipeline->0)
            &&& l.threads.height == 1
            &&& l.threads.depth == 1
            &&& crate::seen::carries_all(l, binds)
            &&& l.shares(tg_mem)
            &&& crate::seen::starts(rt.ops, t.ops)
            &&& crate::seen::steady(rt, t)
            &&& rt.piped(name).1 == Ok::<Pipeline, Seq<char>>(l.scene.pipeline->0)
        }),
{
    let p = rt.piped(name).1->Ok_0;
    lemma_named_launch(
        rt,
        name,
        binds,
        tg_mem,
        crate::device::size3(groups, rows, 1),
        crate::device::size3(threads(p), 1, 1),
    );
}

/// Lanes of a row reduction are a power of two within every limit.
pub proof fn lemma_row_lanes(l: Launch, rows: int, cols: usize)
    requires
        l.flat(),
        l.groups.width == rows,
        l.threads.width == row_lanes(l.scene.pipeline->0.max_threads, cols),
    ensures
        a_group_each(l, rows, cols as int),
        l.threads.width > 0,
{
    let m = l.scene.pipeline->0.max_threads as int;
    let full = pow2_ceil(cols as int);
    crate::sizes::lemma_pow2_ceil(cols as int);
    crate::sizes::lemma_pow2_floor(most(least(least(m, 1024), full), 1));
    let w = l.threads.width as int;
    if w < full {
        crate::sizes::lemma_pow2_gap(w, full);
    }
}

/// Lanes of a row reduction are never none.
pub proof fn lemma_row_lanes_some(m: usize, cols: usize)
    ensures
        row_lanes(m, cols) > 0,
{
    crate::sizes::lemma_pow2_ceil(cols as int);
    crate::sizes::lemma_pow2_floor(most(least(least(m as int, 1024), pow2_ceil(cols as int)), 1));
}

/// Room for `n` elements of `size` bytes.
pub proof fn lemma_room(rt: RuntimeState, buf: Storage, n: int, size: int, what: Seq<char>)
    requires
        require_problem(rt.id, buf, n, size, what) is None,
        size > 0,
    ensures
        has_room(rt, buf, n * size),
{
    assert(n * size <= buf.nbytes) by (nonlinear_arith)
        requires
            buf.nbytes as int / size >= n,
            size > 0,
            buf.nbytes >= 0,
    ;
}

/// One written buffer apart from what is read.
pub proof fn lemma_apart(
    entry: Seq<char>,
    writes: Seq<(&str, &Storage)>,
    reads: Seq<(&str, &Storage)>,
)
    requires
        disjoint_problem(entry, writes, reads) is None,
    ensures
        forall|i: int, j: int|
            0 <= i < j < writes.len() ==> (#[trigger] writes[i]).1.slab.id != (
            #[trigger] writes[j]).1.slab.id,
        forall|i: int, j: int|
            0 <= i < writes.len() && 0 <= j < reads.len() ==> (#[trigger] writes[i]).1.slab.id != (
            #[trigger] reads[j]).1.slab.id,
{
    crate::nn::check::law_disjoint_check_is_exact(entry, writes, reads);
}

/// A launch of groups by name, with binds to rising slots and more behind them.
pub proof fn lemma_headed_groups(
    rt: RuntimeState,
    name: Seq<char>,
    head: Seq<Bind>,
    tail: Seq<Bind>,
    slot: int,
    tg_mem: Option<(usize, usize)>,
    groups: usize,
    rows: usize,
    threads: spec_fn(Pipeline) -> usize,
)
    requires
        groups > 0,
        rows > 0,
        head.len() > 0,
        rising(head, head.len() as int),
        slot_of(head.last()) < slot,
        from_slot(tail, slot),
        rt.kernel_groups(name, head + tail, tg_mem, groups, rows, threads).1 is None,
        in_view(rt, rt.kernel_groups(name, head + tail, tg_mem, groups, rows, threads).0),
        rt.piped(name).1 matches Ok(p) ==> threads(p) > 0,
    ensures
        ({
            let t = rt.kernel_groups(name, head + tail, tg_mem, groups, rows, threads).0;
            let l = dispatch(rt, t);
            &&& ran(rt, t, name)
            &&& l.groups.width == groups
            &&& l.groups.height == rows
            &&& l.groups.depth == 1
            &&& l.threads.width == threads(l.scene.pipeline->0)
            &&& l.threads.height == 1
            &&& l.threads.depth == 1
            &&& carried(l, head)
            &&& carried(l, tail)
            &&& l.shares(tg_mem)
        }),
{
    lemma_kernel_groups(rt, name, head + tail, tg_mem, groups, rows, threads);
    let t = rt.kernel_groups(name, head + tail, tg_mem, groups, rows, threads).0;
    lemma_carried_joined(dispatch(rt, t), head, tail, slot);
}

/// A one-dimensional launch by name, with binds to rising slots and more behind
/// them.
pub proof fn lemma_headed_1d(
    rt: RuntimeState,
    name: Seq<char>,
    n: usize,
    head: Seq<Bind>,
    tail: Seq<Bind>,
    slot: int,
)
    requires
        n > 0,
        head.len() > 0,
        rising(head, head.len() as int),
        slot_of(head.last()) < slot,
        from_slot(tail, slot),
        rt.kernel_1d(name, n, head + tail).1 is None,
        in_view(rt, rt.kernel_1d(name, n, head + tail).0),
    ensures
        ({
            let t = rt.kernel_1d(name, n, head + tail).0;
            let l = dispatch(rt, t);
            &&& ran(rt, t, name)
            &&& covers(l, n as int)
            &&& carried(l, head)
            &&& carried(l, tail)
        }),
{
    lemma_kernel_1d(rt, name, n, head + tail);
    let t = rt.kernel_1d(name, n, head + tail).0;
    lemma_carried_joined(dispatch(rt, t), head, tail, slot);
}

// ----------------------------------------------------------------- norms ---

/// A norm over `rows` rows of `dim` floats: the rows in slot 0, the weights in
/// slot 1, what is written in slot 2, `size` bytes an element, apart from the
/// weights; one group a row.
pub open spec fn norm_seen(
    before: RuntimeState,
    after: RuntimeState,
    name: Seq<char>,
    x: Storage,
    weight: Storage,
    out: Storage,
    rows: u32,
    dim: u32,
    size: int,
    scalars: Seq<Bind>,
) -> bool {
    let l = dispatch(before, after);
    &&& ran(before, after, name)
    &&& l.gets(0, x, 0)
    &&& l.gets(1, weight, 0)
    &&& l.gets(2, out, 0)
    &&& carried(l, scalars)
    &&& a_group_each(l, rows as int, dim as int)
    &&& has_room(before, x, rows * dim * 4)
    &&& has_room(before, weight, dim * 4)
    &&& has_room(before, out, rows * dim * size)
    &&& out.slab.id != weight.slab.id
}

/// An accepted norm of some rows hands its kernel the rows, the weights and the
/// output in slots 0, 1 and 2, each large enough.
pub broadcast proof fn law_rms_norm_f32(
    rt: RuntimeState,
    x: Storage,
    weight: Storage,
    out: Storage,
    rows: u32,
    dim: u32,
    scalars: Seq<Bind>,
)
    requires
        rows > 0,
        from_slot(scalars, 3),
        rms_norm_f32_step(rt, x, weight, out, rows, dim, scalars).1 is None,
        in_view(rt, rms_norm_f32_step(rt, x, weight, out, rows, dim, scalars).0),
    ensures
        norm_seen(
            rt,
            (#[trigger] rms_norm_f32_step(rt, x, weight, out, rows, dim, scalars)).0,
            "rms_norm_f32"@,
            x,
            weight,
            out,
            rows,
            dim,
            4,
            scalars,
        ),
{
    let head = seq![at(x, 0), at(weight, 1), at(out, 2)];
    let t = rms_norm_f32_step(rt, x, weight, out, rows, dim, scalars).0;
    lemma_norm(rt, t, "rms_norm_f32"@, head, scalars, rows, dim);
    lemma_apart("rms_norm_f32"@, seq![("out", &out)], seq![("weight", &weight)]);
    assert(seq![("out", &out)][0].1 == out && seq![("weight", &weight)][0].1 == weight);
    lemma_room(rt, x, rows * dim, 4, "rms_norm_f32 x"@);
    lemma_room(rt, weight, dim as int, 4, "rms_norm_f32 weight"@);
    lemma_room(rt, out, rows * dim, 4, "rms_norm_f32 out"@);
}

/// So does a norm that writes bf16.
pub broadcast proof fn law_rms_norm_bf16(
    rt: RuntimeState,
    x: Storage,
    weight: Storage,
    out: Storage,
    rows: u32,
    dim: u32,
    scalars: Seq<Bind>,
)
    requires
        rows > 0,
        from_slot(scalars, 3),
        rms_norm_bf16_step(rt, x, weight, out, rows, dim, scalars).1 is None,
        in_view(rt, rms_norm_bf16_step(rt, x, weight, out, rows, dim, scalars).0),
    ensures
        norm_seen(
            rt,
            (#[trigger] rms_norm_bf16_step(rt, x, weight, out, rows, dim, scalars)).0,
            "rms_norm_bf16"@,
            x,
            weight,
            out,
            rows,
            dim,
            2,
            scalars,
        ),
{
    let head = seq![at(x, 0), at(weight, 1), at(out, 2)];
    let t = rms_norm_bf16_step(rt, x, weight, out, rows, dim, scalars).0;
    lemma_norm(rt, t, "rms_norm_bf16"@, head, scalars, rows, dim);
    let reads = seq![("x", &x), ("weight", &weight)];
    lemma_apart("rms_norm_bf16"@, seq![("out", &out)], reads);
    assert(seq![("out", &out)][0].1 == out && reads.last().1 == weight);
    lemma_room(rt, x, rows * dim, 4, "rms_norm_bf16 x"@);
    lemma_room(rt, weight, dim as int, 4, "rms_norm_bf16 weight"@);
    lemma_room(rt, out, rows * dim, 2, "rms_norm_bf16 out"@);
}

/// So does a norm that is added to a residual, which stands in slot 2.
pub broadcast proof fn law_rms_norm_residual_add_f32(
    rt: RuntimeState,
    x: Storage,
    weight: Storage,
    resid: Storage,
    rows: u32,
    dim: u32,
    scalars: Seq<Bind>,
)
    requires
        rows > 0,
        from_slot(scalars, 3),
        rms_norm_residual_add_f32_step(rt, x, weight, resid, rows, dim, scalars).1 is None,
        in_view(rt, rms_norm_residual_add_f32_step(rt, x, weight, resid, rows, dim, scalars).0),
    ensures
        norm_seen(
            rt,
            (#[trigger] rms_norm_residual_add_f32_step(rt, x, weight, resid, rows, dim, scalars)).0,
            "rms_norm_residual_add_f32"@,
            x,
            weight,
            resid,
            rows,
            dim,
            4,
            scalars,
        ),
{
    let head = seq![at(x, 0), at(weight, 1), at(resid, 2)];
    let t = rms_norm_residual_add_f32_step(rt, x, weight, resid, rows, dim, scalars).0;
    lemma_norm(rt, t, "rms_norm_residual_add_f32"@, head, scalars, rows, dim);
    let reads = seq![("weight", &weight)];
    lemma_apart("rms_norm_residual_add_f32"@, seq![("resid", &resid)], reads);
    assert(seq![("resid", &resid)][0].1 == resid && reads.last().1 == weight);
    lemma_room(rt, x, rows * dim, 4, "rms_norm_residual_add_f32 x"@);
    lemma_room(rt, weight, dim as int, 4, "rms_norm_residual_add_f32 weight"@);
    lemma_room(rt, resid, rows * dim, 4, "rms_norm_residual_add_f32 resid"@);
}

proof fn lemma_norm(
    rt: RuntimeState,
    t: RuntimeState,
    name: Seq<char>,
    head: Seq<Bind>,
    scalars: Seq<Bind>,
    rows: u32,
    dim: u32,
)
    requires
        rows > 0,
        from_slot(scalars, 3),
        head.len() == 3,
        slot_of(head[0]) == 0,
        slot_of(head[1]) == 1,
        slot_of(head[2]) == 2,
        ({
            let step = rt.kernel_groups(
                name,
                head + scalars,
                None,
                rows as usize,
                1,
                |p: Pipeline| row_lanes(p.max_threads, dim as usize),
            );
            step.1 is None && t == step.0
        }),
        in_view(rt, t),
    ensures
        ran(rt, t, name),
        a_group_each(dispatch(rt, t), rows as int, dim as int),
        carries(dispatch(rt, t), head[0]),
        carries(dispatch(rt, t), head[1]),
        carries(dispatch(rt, t), head[2]),
        carried(dispatch(rt, t), scalars),
{
    let f = |p: Pipeline| row_lanes(p.max_threads, dim as usize);
    if let Ok(p) = rt.piped(name).1 {
        lemma_row_lanes_some(p.max_threads, dim as usize);
    }
    lemma_kernel_groups(rt, name, head + scalars, None, rows as usize, 1, f);
    let l = dispatch(rt, t);
    lemma_row_lanes(l, rows as int, dim as usize);
    reveal_with_fuel(rising, 4);
    lemma_carried_joined(l, head, scalars, 3);
    reveal(carried);
}

// ------------------------------------------------------------ activations --

/// A gated activation over `n` elements: what gates in slot 0, what it scales in
/// slot 1, what is written in slot 2.
pub open spec fn gated_seen(
    before: RuntimeState,
    after: RuntimeState,
    name: Seq<char>,
    gate: Storage,
    up: Storage,
    out: Storage,
    n: u32,
    size: int,
    scalars: Seq<Bind>,
) -> bool {
    let l = dispatch(before, after);
    &&& ran(before, after, name)
    &&& l.gets(0, gate, 0)
    &&& l.gets(1, up, 0)
    &&& l.gets(2, out, 0)
    &&& carried(l, scalars)
    &&& covers(l, n as int)
    &&& has_room(before, gate, n * 4)
    &&& has_room(before, up, n * 4)
    &&& has_room(before, out, n * size)
}

/// An accepted activation of some elements hands its kernel gate, up and output in
/// slots 0, 1 and 2, each large enough.
pub broadcast proof fn law_mlp_silu(
    rt: RuntimeState,
    gate: Storage,
    up: Storage,
    out: Storage,
    n: u32,
    scalars: Seq<Bind>,
)
    requires
        n > 0,
        from_slot(scalars, 3),
        mlp_silu_step(rt, gate, up, out, n, scalars).1 is None,
        in_view(rt, mlp_silu_step(rt, gate, up, out, n, scalars).0),
    ensures
        gated_seen(
            rt,
            (#[trigger] mlp_silu_step(rt, gate, up, out, n, scalars)).0,
            "mlp_silu"@,
            gate,
            up,
            out,
            n,
            4,
            scalars,
        ),
{
    let head = seq![at(gate, 0), at(up, 1), at(out, 2)];
    reveal_with_fuel(rising, 4);
    lemma_headed_1d(rt, "mlp_silu"@, n as usize, head, scalars, 3);
    let l = dispatch(rt, mlp_silu_step(rt, gate, up, out, n, scalars).0);
    reveal(carried);
    assert(carries(l, head[0]) && carries(l, head[1]) && carries(l, head[2]));
    lemma_room(rt, gate, n as int, 4, "mlp_silu gate"@);
    lemma_room(rt, up, n as int, 4, "mlp_silu up"@);
    lemma_room(rt, out, n as int, 4, "mlp_silu out"@);
}

/// So does one with the other activation.
pub broadcast proof fn law_mlp_gelu_tanh(
    rt: RuntimeState,
    gate: Storage,
    up: Storage,
    out: Storage,
    n: u32,
    scalars: Seq<Bind>,
)
    requires
        n > 0,
        from_slot(scalars, 3),
        mlp_gelu_tanh_step(rt, gate, up, out, n, scalars).1 is None,
        in_view(rt, mlp_gelu_tanh_step(rt, gate, up, out, n, scalars).0),
    ensures
        gated_seen(
            rt,
            (#[trigger] mlp_gelu_tanh_step(rt, gate, up, out, n, scalars)).0,
            "mlp_gelu_tanh"@,
            gate,
            up,
            out,
            n,
            4,
            scalars,
        ),
{
    let head = seq![at(gate, 0), at(up, 1), at(out, 2)];
    reveal_with_fuel(rising, 4);
    lemma_headed_1d(rt, "mlp_gelu_tanh"@, n as usize, head, scalars, 3);
    let l = dispatch(rt, mlp_gelu_tanh_step(rt, gate, up, out, n, scalars).0);
    reveal(carried);
    assert(carries(l, head[0]) && carries(l, head[1]) && carries(l, head[2]));
    lemma_room(rt, gate, n as int, 4, "mlp_gelu_tanh gate"@);
    lemma_room(rt, up, n as int, 4, "mlp_gelu_tanh up"@);
    lemma_room(rt, out, n as int, 4, "mlp_gelu_tanh out"@);
}

/// So does one that writes bf16, which may not be where it reads.
pub broadcast proof fn law_mlp_gelu_tanh_bf16(
    rt: RuntimeState,
    gate: Storage,
    up: Storage,
    out: Storage,
    n: u32,
    scalars: Seq<Bind>,
)
    requires
        n > 0,
        from_slot(scalars, 3),
        mlp_gelu_tanh_bf16_step(rt, gate, up, out, n, scalars).1 is None,
        in_view(rt, mlp_gelu_tanh_bf16_step(rt, gate, up, out, n, scalars).0),
    ensures
        gated_seen(
            rt,
            (#[trigger] mlp_gelu_tanh_bf16_step(rt, gate, up, out, n, scalars)).0,
            "mlp_gelu_tanh_bf16"@,
            gate,
            up,
            out,
            n,
            2,
            scalars,
        ),
        out.slab.id != gate.slab.id && out.slab.id != up.slab.id,
{
    let head = seq![at(gate, 0), at(up, 1), at(out, 2)];
    reveal_with_fuel(rising, 4);
    lemma_headed_1d(rt, "mlp_gelu_tanh_bf16"@, n as usize, head, scalars, 3);
    let l = dispatch(rt, mlp_gelu_tanh_bf16_step(rt, gate, up, out, n, scalars).0);
    reveal(carried);
    assert(carries(l, head[0]) && carries(l, head[1]) && carries(l, head[2]));
    let reads = seq![("gate", &gate), ("up", &up)];
    lemma_apart("mlp_gelu_tanh_bf16"@, seq![("out", &out)], reads);
    assert(seq![("out", &out)][0].1 == out && reads[0].1 == gate && reads[1].1 == up);
    lemma_room(rt, gate, n as int, 4, "mlp_gelu_tanh_bf16 gate"@);
    lemma_room(rt, up, n as int, 4, "mlp_gelu_tanh_bf16 up"@);
    lemma_room(rt, out, n as int, 2, "mlp_gelu_tanh_bf16 out"@);
}

/// Scaling in place hands its kernel the elements in slot 0.
pub broadcast proof fn law_scale_f32_inplace(rt: RuntimeState, x: Storage, n: u32, scalars: Seq<Bind>)
    requires
        n > 0,
        from_slot(scalars, 1),
        scale_f32_inplace_step(rt, x, n, scalars).1 is None,
        in_view(rt, scale_f32_inplace_step(rt, x, n, scalars).0),
    ensures
        ({
            let t = (#[trigger] scale_f32_inplace_step(rt, x, n, scalars)).0;
            scaled_seen(rt, t, x, n, scalars)
        }),
{
    let head = seq![at(x, 0)];
    reveal_with_fuel(rising, 2);
    lemma_headed_1d(rt, "scale_f32_inplace"@, n as usize, head, scalars, 1);
    let l = dispatch(rt, scale_f32_inplace_step(rt, x, n, scalars).0);
    reveal(carried);
    assert(carries(l, head[0]));
    lemma_room(rt, x, n as int, 4, "scale_f32_inplace"@);
}

/// The elements that are scaled are in slot 0.
pub open spec fn scaled_seen(
    before: RuntimeState,
    after: RuntimeState,
    x: Storage,
    n: u32,
    scalars: Seq<Bind>,
) -> bool {
    let l = dispatch(before, after);
    &&& ran(before, after, "scale_f32_inplace"@)
    &&& l.gets(0, x, 0)
    &&& carried(l, scalars)
    &&& covers(l, n as int)
    &&& has_room(before, x, n * 4)
}

// -------------------------------------------------------------- reductions --

/// A reduction over `rows` rows of `cols` floats: the rows in slot 0, what is
/// written in slot 1, `per_row` floats a row, the columns in slot 2; one group a
/// row.
pub open spec fn reduced_seen(
    before: RuntimeState,
    after: RuntimeState,
    name: Seq<char>,
    x: Storage,
    out: Storage,
    rows: u32,
    cols: u32,
    per_row: int,
) -> bool {
    let l = dispatch(before, after);
    &&& ran(before, after, name)
    &&& l.gets(0, x, 0)
    &&& l.gets(1, out, 0)
    &&& l.reads(2, cols)
    &&& a_group_each(l, rows as int, cols as int)
    &&& has_room(before, x, rows * cols * 4)
    &&& has_room(before, out, rows * per_row * 4)
    &&& cols > 0
}

/// An accepted row reduction hands its kernel rows, output and columns in slots 0,
/// 1 and 2.
pub broadcast proof fn law_row_reduce(
    rt: RuntimeState,
    entry: Seq<char>,
    x: Storage,
    out: Storage,
    rows: u32,
    cols: u32,
    out_per_row: u32,
)
    requires
        rows > 0,
        row_reduce_step(rt, entry, x, out, rows, cols, out_per_row).1 is None,
        in_view(rt, row_reduce_step(rt, entry, x, out, rows, cols, out_per_row).0),
    ensures
        reduced_seen(
            rt,
            (#[trigger] row_reduce_step(rt, entry, x, out, rows, cols, out_per_row)).0,
            entry,
            x,
            out,
            rows,
            cols,
            out_per_row as int,
        ),
{
    let t = row_reduce_step(rt, entry, x, out, rows, cols, out_per_row).0;
    let binds = seq![at(x, 0), at(out, 1), word_at(cols, 2)];
    let f = |p: Pipeline| row_lanes(p.max_threads, cols as usize);
    if let Ok(p) = rt.piped(entry).1 {
        lemma_row_lanes_some(p.max_threads, cols as usize);
    }
    lemma_kernel_groups(rt, entry, binds, None, rows as usize, 1, f);
    let l = dispatch(rt, t);
    lemma_row_lanes(l, rows as int, cols as usize);
    reveal_with_fuel(rising, 4);
    lemma_carried(l, binds);
    reveal(carried);
    assert(carries(l, binds[0]) && carries(l, binds[1]) && carries(l, binds[2]));
}

} // verus!
