//! RMSNorm and its fused forms, gated MLP activations, elementwise scaling,
//! row reductions.

use vstd::prelude::*;

use crate::device::Pipeline;
use crate::dispatch::{launch_1d, launch_groups, Bind};
use crate::nn::check::{
    at, bind_list, buf, disjoint_problem, elems, encodes, float, float_at, overflow_message,
    positive, reduce_tptg, require, require_disjoint_writes, require_problem, row_lanes, word,
    word_at, HALF, WORD,
};
use crate::runtime::GpuRuntime;
use crate::state::RuntimeState;
use crate::tensor::{GpuBuffer, Storage};
use crate::text::{first, join, reports, unless, Msg};
use crate::seen::{carried, dispatch, from_slot, in_view, rising};
use crate::nn::laws::{gated_seen, law_mlp_gelu_tanh, law_mlp_gelu_tanh_bf16, law_mlp_silu, law_rms_norm_bf16, law_rms_norm_f32, law_rms_norm_residual_add_f32, law_row_reduce, law_scale_f32_inplace, norm_seen, reduced_seen, scaled_seen};

verus! {

/// What is wrong with the scalars of a norm.
pub open spec fn rms_scalar_problem(dim: u32, eps: u32, what: Seq<char>) -> Option<Seq<char>> {
    first(
        unless(dim != 0, what + ": dim must be non-zero"@),
        unless(positive(eps), what + ": eps must be finite and positive"@),
    )
}

fn validate_rms_scalars(dim: u32, eps: u32, what: &str) -> (r: Result<(), String>)
    ensures
        reports(r, rms_scalar_problem(dim, eps, what@)),
{
    if dim == 0 {
        return Err(Msg::new(what).text(": dim must be non-zero").done());
    }
    if eps == 0 || eps >= 0x7f80_0000 {
        return Err(Msg::new(what).text(": eps must be finite and positive").done());
    }
    Ok(())
}

/// Effect of [`rms_norm_f32_with_scalars`].
pub open spec fn rms_norm_f32_step(
    rt: RuntimeState,
    x: Storage,
    weight: Storage,
    out: Storage,
    rows: u32,
    dim: u32,
    scalars: Seq<Bind>,
) -> (RuntimeState, Option<Seq<char>>) {
    let n = rows * dim;
    rt.guarded(
        first(
            unless(n <= usize::MAX, overflow_message("rms_norm_f32"@)),
            first(
                require_problem(rt.id, x, n, 4, "rms_norm_f32 x"@),
                first(
                    require_problem(rt.id, weight, dim as int, 4, "rms_norm_f32 weight"@),
                    require_problem(rt.id, out, n, 4, "rms_norm_f32 out"@),
                ),
            ),
        ),
        rows == 0,
        disjoint_problem("rms_norm_f32"@, seq![("out", &out)], seq![("weight", &weight)]),
        rt.kernel_groups(
            "rms_norm_f32"@,
            seq![at(x, 0), at(weight, 1), at(out, 2)] + scalars,
            None,
            rows as usize,
            1,
            |p: Pipeline| row_lanes(p.max_threads, dim as usize),
        ),
    )
}

/// [`rms_norm_f32`] with caller-supplied scalar binds: 3 = `rows`, 4 = `dim`,
/// 5 = `eps`.
pub fn rms_norm_f32_with_scalars(
    rt: &mut GpuRuntime,
    x: &GpuBuffer,
    weight: &GpuBuffer,
    out: &GpuBuffer,
    rows: u32,
    dim: u32,
    scalars: &[Bind],
) -> (r: Result<(), String>)
    requires
        old(rt).inv(),
    ensures
        final(rt).inv(),
        encodes(
            old(rt)@,
            final(rt)@,
            r,
            rms_norm_f32_step(old(rt)@, x@, weight@, out@, rows, dim, scalars@),
        ),
        r is Ok && rows > 0 && from_slot(scalars@, 3) && in_view(old(rt)@, final(rt)@) ==> norm_seen(
            old(rt)@,
            final(rt)@,
            "rms_norm_f32"@,
            x@,
            weight@,
            out@,
            rows,
            dim,
            4,
            scalars@,
        ),
{
    broadcast use law_rms_norm_f32;

    let x = &x.at();
    let weight = &weight.at();
    let out = &out.at();
    let id: u64 = rt.id();
    let n: usize = elems(rows, dim, "rms_norm_f32")?;
    require(id, x, n, WORD, "rms_norm_f32 x")?;
    require(id, weight, dim as usize, WORD, "rms_norm_f32 weight")?;
    require(id, out, n, WORD, "rms_norm_f32 out")?;
    if rows == 0 {
        return Ok(());
    }
    let writes = [("out", out)];
    let reads = [("weight", weight)];
    assert(writes@ =~= seq![("out", out)]);
    assert(reads@ =~= seq![("weight", weight)]);
    require_disjoint_writes("rms_norm_f32", &writes, &reads)?;
    let p = rt.pipeline("rms_norm_f32")?;
    let head = [buf(x, 0), buf(weight, 1), buf(out, 2)];
    assert(head@ =~= seq![at(*x, 0), at(*weight, 1), at(*out, 2)]);
    let binds = bind_list(&head, scalars);
    let tptg: usize = reduce_tptg(p.max_threads, dim as usize);
    launch_groups(rt, &p, binds.as_slice(), None, rows as usize, 1, tptg)
}

/// `out[r, :] = x[r, :] * rsqrt(mean(x[r, :]^2) + eps) * weight[:]`, f32 out. One
/// threadgroup per row. `eps` is a float's bit pattern.
pub fn rms_norm_f32(
    rt: &mut GpuRuntime,
    x: &GpuBuffer,
    weight: &GpuBuffer,
    out: &GpuBuffer,
    rows: u32,
    dim: u32,
    eps: u32,
) -> (r: Result<(), String>)
    requires
        old(rt).inv(),
    ensures
        final(rt).inv(),
        encodes(
            old(rt)@,
            final(rt)@,
            r,
            old(rt)@.guarded(
                rms_scalar_problem(dim, eps, "rms_norm_f32"@),
                false,
                None,
                rms_norm_f32_step(
                    old(rt)@,
                    x@,
                    weight@,
                    out@,
                    rows,
                    dim,
                    seq![word_at(rows, 3), word_at(dim, 4), float_at(eps, 5)],
                ),
            ),
        ),
        r is Ok && rows > 0 && in_view(old(rt)@, final(rt)@) ==> ({
                let l = dispatch(old(rt)@, final(rt)@);
                &&& norm_seen(
                    old(rt)@,
                    final(rt)@,
                    "rms_norm_f32"@,
                    x@,
                    weight@,
                    out@,
                    rows,
                    dim,
                    4,
                    Seq::empty(),
                )
                &&& l.reads(3, rows)
                &&& l.reads(4, dim)
                &&& l.reads(5, eps)
            }),
{
    proof {
        reveal_with_fuel(rising, 8);
        reveal(carried);
    }
    validate_rms_scalars(dim, eps, "rms_norm_f32")?;
    let scalars = [word(rows, 3), word(dim, 4), float(eps, 5)];
    assert(scalars@ =~= seq![word_at(rows, 3), word_at(dim, 4), float_at(eps, 5)]);
    rms_norm_f32_with_scalars(rt, x, weight, out, rows, dim, &scalars)
}

/// Effect of [`rms_norm_bf16_with_scalars`].
pub open spec fn rms_norm_bf16_step(
    rt: RuntimeState,
    x: Storage,
    weight: Storage,
    out: Storage,
    rows: u32,
    dim: u32,
    scalars: Seq<Bind>,
) -> (RuntimeState, Option<Seq<char>>) {
    let n = rows * dim;
    rt.guarded(
        first(
            unless(n <= usize::MAX, overflow_message("rms_norm_bf16"@)),
            first(
                require_problem(rt.id, x, n, 4, "rms_norm_bf16 x"@),
                first(
                    require_problem(rt.id, weight, dim as int, 4, "rms_norm_bf16 weight"@),
                    require_problem(rt.id, out, n, 2, "rms_norm_bf16 out"@),
                ),
            ),
        ),
        rows == 0,
        disjoint_problem(
            "rms_norm_bf16"@,
            seq![("out", &out)],
            seq![("x", &x), ("weight", &weight)],
        ),
        rt.kernel_groups(
            "rms_norm_bf16"@,
            seq![at(x, 0), at(weight, 1), at(out, 2)] + scalars,
            None,
            rows as usize,
            1,
            |p: Pipeline| row_lanes(p.max_threads, dim as usize),
        ),
    )
}

/// [`rms_norm_bf16`] with caller-supplied scalar binds: 3 = `rows`, 4 = `dim`,
/// 5 = `eps`.
pub fn rms_norm_bf16_with_scalars(
    rt: &mut GpuRuntime,
    x: &GpuBuffer,
    weight: &GpuBuffer,
    out: &GpuBuffer,
    rows: u32,
    dim: u32,
    scalars: &[Bind],
) -> (r: Result<(), String>)
    requires
        old(rt).inv(),
    ensures
        final(rt).inv(),
        encodes(
            old(rt)@,
            final(rt)@,
            r,
            rms_norm_bf16_step(old(rt)@, x@, weight@, out@, rows, dim, scalars@),
        ),
        r is Ok && rows > 0 && from_slot(scalars@, 3) && in_view(old(rt)@, final(rt)@) ==> norm_seen(
            old(rt)@,
            final(rt)@,
            "rms_norm_bf16"@,
            x@,
            weight@,
            out@,
            rows,
            dim,
            2,
            scalars@,
        ),
{
    broadcast use law_rms_norm_bf16;

    let x = &x.at();
    let weight = &weight.at();
    let out = &out.at();
    let id: u64 = rt.id();
    let n: usize = elems(rows, dim, "rms_norm_bf16")?;
    require(id, x, n, WORD, "rms_norm_bf16 x")?;
    require(id, weight, dim as usize, WORD, "rms_norm_bf16 weight")?;
    require(id, out, n, HALF, "rms_norm_bf16 out")?;
    if rows == 0 {
        return Ok(());
    }
    let writes = [("out", out)];
    let reads = [("x", x), ("weight", weight)];
    assert(writes@ =~= seq![("out", out)]);
    assert(reads@ =~= seq![("x", x), ("weight", weight)]);
    require_disjoint_writes("rms_norm_bf16", &writes, &reads)?;
    let p = rt.pipeline("rms_norm_bf16")?;
    let head = [buf(x, 0), buf(weight, 1), buf(out, 2)];
    assert(head@ =~= seq![at(*x, 0), at(*weight, 1), at(*out, 2)]);
    let binds = bind_list(&head, scalars);
    let tptg: usize = reduce_tptg(p.max_threads, dim as usize);
    launch_groups(rt, &p, binds.as_slice(), None, rows as usize, 1, tptg)
}

/// [`rms_norm_f32`] writing bf16, to feed a bf16 kernel without a cast pass.
pub fn rms_norm_bf16(
    rt: &mut GpuRuntime,
    x: &GpuBuffer,
    weight: &GpuBuffer,
    out: &GpuBuffer,
    rows: u32,
    dim: u32,
    eps: u32,
) -> (r: Result<(), String>)
    requires
        old(rt).inv(),
    ensures
        final(rt).inv(),
        encodes(
            old(rt)@,
            final(rt)@,
            r,
            old(rt)@.guarded(
                rms_scalar_problem(dim, eps, "rms_norm_bf16"@),
                false,
                None,
                rms_norm_bf16_step(
                    old(rt)@,
                    x@,
                    weight@,
                    out@,
                    rows,
                    dim,
                    seq![word_at(rows, 3), word_at(dim, 4), float_at(eps, 5)],
                ),
            ),
        ),
        r is Ok && rows > 0 && in_view(old(rt)@, final(rt)@) ==> ({
                let l = dispatch(old(rt)@, final(rt)@);
                &&& norm_seen(
                    old(rt)@,
                    final(rt)@,
                    "rms_norm_bf16"@,
                    x@,
                    weight@,
                    out@,
                    rows,
                    dim,
                    2,
                    Seq::empty(),
                )
                &&& l.reads(3, rows)
                &&& l.reads(4, dim)
                &&& l.reads(5, eps)
            }),
{
    proof {
        reveal_with_fuel(rising, 8);
        reveal(carried);
    }
    validate_rms_scalars(dim, eps, "rms_norm_bf16")?;
    let scalars = [word(rows, 3), word(dim, 4), float(eps, 5)];
    assert(scalars@ =~= seq![word_at(rows, 3), word_at(dim, 4), float_at(eps, 5)]);
    rms_norm_bf16_with_scalars(rt, x, weight, out, rows, dim, &scalars)
}

/// Effect of [`rms_norm_residual_add_f32_with_scalars`].
pub open spec fn rms_norm_residual_add_f32_step(
    rt: RuntimeState,
    x: Storage,
    weight: Storage,
    resid: Storage,
    rows: u32,
    dim: u32,
    scalars: Seq<Bind>,
) -> (RuntimeState, Option<Seq<char>>) {
    let n = rows * dim;
    rt.guarded(
        first(
            unless(n <= usize::MAX, overflow_message("rms_norm_residual_add_f32"@)),
            first(
                require_problem(rt.id, x, n, 4, "rms_norm_residual_add_f32 x"@),
                first(
                    require_problem(
                        rt.id,
                        weight,
                        dim as int,
                        4,
                        "rms_norm_residual_add_f32 weight"@,
                    ),
                    require_problem(rt.id, resid, n, 4, "rms_norm_residual_add_f32 resid"@),
                ),
            ),
        ),
        rows == 0,
        disjoint_problem(
            "rms_norm_residual_add_f32"@,
            seq![("resid", &resid)],
            seq![("weight", &weight)],
        ),
        rt.kernel_groups(
            "rms_norm_residual_add_f32"@,
            seq![at(x, 0), at(weight, 1), at(resid, 2)] + scalars,
            None,
            rows as usize,
            1,
            |p: Pipeline| row_lanes(p.max_threads, dim as usize),
        ),
    )
}

/// [`rms_norm_residual_add_f32`] with caller-supplied scalar binds: 3 =
/// `rows`, 4 = `dim`, 5 = `eps`, 6 = `layer_scale`.
pub fn rms_norm_residual_add_f32_with_scalars(
    rt: &mut GpuRuntime,
    x: &GpuBuffer,
    weight: &GpuBuffer,
    resid: &GpuBuffer,
    rows: u32,
    dim: u32,
    scalars: &[Bind],
) -> (r: Result<(), String>)
    requires
        old(rt).inv(),
    ensures
        final(rt).inv(),
        encodes(
            old(rt)@,
            final(rt)@,
            r,
            rms_norm_residual_add_f32_step(old(rt)@, x@, weight@, resid@, rows, dim, scalars@),
        ),
        r is Ok && rows > 0 && from_slot(scalars@, 3) && in_view(old(rt)@, final(rt)@) ==> norm_seen(
            old(rt)@,
            final(rt)@,
            "rms_norm_residual_add_f32"@,
            x@,
            weight@,
            resid@,
            rows,
            dim,
            4,
            scalars@,
        ),
{
    broadcast use law_rms_norm_residual_add_f32;

    let x = &x.at();
    let weight = &weight.at();
    let resid = &resid.at();
    let id: u64 = rt.id();
    let n: usize = elems(rows, dim, "rms_norm_residual_add_f32")?;
    require(id, x, n, WORD, "rms_norm_residual_add_f32 x")?;
    require(id, weight, dim as usize, WORD, "rms_norm_residual_add_f32 weight")?;
    require(id, resid, n, WORD, "rms_norm_residual_add_f32 resid")?;
    if rows == 0 {
        return Ok(());
    }
    let writes = [("resid", resid)];
    let reads = [("weight", weight)];
    assert(writes@ =~= seq![("resid", resid)]);
    assert(reads@ =~= seq![("weight", weight)]);
    require_disjoint_writes("rms_norm_residual_add_f32", &writes, &reads)?;
    let p = rt.pipeline("rms_norm_residual_add_f32")?;
    let head = [buf(x, 0), buf(weight, 1), buf(resid, 2)];
    assert(head@ =~= seq![at(*x, 0), at(*weight, 1), at(*resid, 2)]);
    let binds = bind_list(&head, scalars);
    let tptg: usize = reduce_tptg(p.max_threads, dim as usize);
    launch_groups(rt, &p, binds.as_slice(), None, rows as usize, 1, tptg)
}

/// Fused `resid = layer_scale * (resid + rms_norm(x) * weight)`, in place.
pub fn rms_norm_residual_add_f32(
    rt: &mut GpuRuntime,
    x: &GpuBuffer,
    weight: &GpuBuffer,
    resid: &GpuBuffer,
    rows: u32,
    dim: u32,
    eps: u32,
    layer_scale: u32,
) -> (r: Result<(), String>)
    requires
        old(rt).inv(),
    ensures
        final(rt).inv(),
        encodes(
            old(rt)@,
            final(rt)@,
            r,
            old(rt)@.guarded(
                rms_scalar_problem(dim, eps, "rms_norm_residual_add_f32"@),
                false,
                None,
                rms_norm_residual_add_f32_step(
                    old(rt)@,
                    x@,
                    weight@,
                    resid@,
                    rows,
                    dim,
                    seq![
                        word_at(rows, 3),
                        word_at(dim, 4),
                        float_at(eps, 5),
                        float_at(layer_scale, 6),
                    ],
                ),
            ),
        ),
        r is Ok && rows > 0 && in_view(old(rt)@, final(rt)@) ==> ({
                let l = dispatch(old(rt)@, final(rt)@);
                &&& norm_seen(
                    old(rt)@,
                    final(rt)@,
                    "rms_norm_residual_add_f32"@,
                    x@,
                    weight@,
                    resid@,
                    rows,
                    dim,
                    4,
                    Seq::empty(),
                )
                &&& l.reads(3, rows)
                &&& l.reads(4, dim)
                &&& l.reads(5, eps)
                &&& l.reads(6, layer_scale)
            }),
{
    proof {
        reveal_with_fuel(rising, 8);
        reveal(carried);
    }
    validate_rms_scalars(dim, eps, "rms_norm_residual_add_f32")?;
    let scalars = [word(rows, 3), word(dim, 4), float(eps, 5), float(layer_scale, 6)];
    assert(
        scalars@ =~= seq![
            word_at(rows, 3),
            word_at(dim, 4),
            float_at(eps, 5),
            float_at(layer_scale, 6),
        ]
    );
    rms_norm_residual_add_f32_with_scalars(rt, x, weight, resid, rows, dim, &scalars)
}

/// Effect of [`mlp_silu_with_scalars`].
pub open spec fn mlp_silu_step(
    rt: RuntimeState,
    gate: Storage,
    up: Storage,
    out: Storage,
    n: u32,
    scalars: Seq<Bind>,
) -> (RuntimeState, Option<Seq<char>>) {
    rt.guarded(
        first(
            require_problem(rt.id, gate, n as int, 4, "mlp_silu gate"@),
            first(
                require_problem(rt.id, up, n as int, 4, "mlp_silu up"@),
                require_problem(rt.id, out, n as int, 4, "mlp_silu out"@),
            ),
        ),
        false,
        None,
        rt.kernel_1d("mlp_silu"@, n as usize, seq![at(gate, 0), at(up, 1), at(out, 2)] + scalars),
    )
}

/// [`mlp_silu`] with caller-supplied scalar binds: 3 = `n`.
pub fn mlp_silu_with_scalars(
    rt: &mut GpuRuntime,
    gate: &GpuBuffer,
    up: &GpuBuffer,
    out: &GpuBuffer,
    n: u32,
    scalars: &[Bind],
) -> (r: Result<(), String>)
    requires
        old(rt).inv(),
    ensures
        final(rt).inv(),
        encodes(
            old(rt)@,
            final(rt)@,
            r,
            mlp_silu_step(old(rt)@, gate@, up@, out@, n, scalars@),
        ),
        r is Ok && n > 0 && from_slot(scalars@, 3) && in_view(old(rt)@, final(rt)@) ==> gated_seen(
            old(rt)@,
            final(rt)@,
            "mlp_silu"@,
            gate@,
            up@,
            out@,
            n,
            4,
            scalars@,
        ),
{
    broadcast use law_mlp_silu;

    let gate = &gate.at();
    let up = &up.at();
    let out = &out.at();
    let id: u64 = rt.id();
    require(id, gate, n as usize, WORD, "mlp_silu gate")?;
    require(id, up, n as usize, WORD, "mlp_silu up")?;
    require(id, out, n as usize, WORD, "mlp_silu out")?;
    let p = rt.pipeline("mlp_silu")?;
    let head = [buf(gate, 0), buf(up, 1), buf(out, 2)];
    assert(head@ =~= seq![at(*gate, 0), at(*up, 1), at(*out, 2)]);
    let binds = bind_list(&head, scalars);
    launch_1d(rt, &p, n as usize, binds.as_slice())
}

/// `out[i] = silu(gate[i]) * up[i]`.
pub fn mlp_silu(
    rt: &mut GpuRuntime,
    gate: &GpuBuffer,
    up: &GpuBuffer,
    out: &GpuBuffer,
    n: u32,
) -> (r: Result<(), String>)
    requires
        old(rt).inv(),
    ensures
        final(rt).inv(),
        encodes(
            old(rt)@,
            final(rt)@,
            r,
            mlp_silu_step(old(rt)@, gate@, up@, out@, n, seq![word_at(n, 3)]),
        ),
        r is Ok && n > 0 && in_view(old(rt)@, final(rt)@) ==> ({
                let l = dispatch(old(rt)@, final(rt)@);
                &&& gated_seen(
                    old(rt)@,
                    final(rt)@,
                    "mlp_silu"@,
                    gate@,
                    up@,
                    out@,
                    n,
                    4,
                    Seq::empty(),
                )
                &&& l.reads(3, n)
            }),
{
    proof {
        reveal_with_fuel(rising, 8);
        reveal(carried);
    }
    let scalars = [word(n, 3)];
    assert(scalars@ =~= seq![word_at(n, 3)]);
    mlp_silu_with_scalars(rt, gate, up, out, n, &scalars)
}

/// Effect of [`mlp_gelu_tanh_with_scalars`].
pub open spec fn mlp_gelu_tanh_step(
    rt: RuntimeState,
    gate: Storage,
    up: Storage,
    out: Storage,
    n: u32,
    scalars: Seq<Bind>,
) -> (RuntimeState, Option<Seq<char>>) {
    rt.guarded(
        first(
            require_problem(rt.id, gate, n as int, 4, "mlp_gelu_tanh gate"@),
            first(
                require_problem(rt.id, up, n as int, 4, "mlp_gelu_tanh up"@),
                require_problem(rt.id, out, n as int, 4, "mlp_gelu_tanh out"@),
            ),
        ),
        false,
        None,
        rt.kernel_1d(
            "mlp_gelu_tanh"@,
            n as usize,
            seq![at(gate, 0), at(up, 1), at(out, 2)] + scalars,
        ),
    )
}

/// [`mlp_gelu_tanh`] with caller-supplied scalar binds: 3 = `n`.
pub fn mlp_gelu_tanh_with_scalars(
    rt: &mut GpuRuntime,
    gate: &GpuBuffer,
    up: &GpuBuffer,
    out: &GpuBuffer,
    n: u32,
    scalars: &[Bind],
) -> (r: Result<(), String>)
    requires
        old(rt).inv(),
    ensures
        final(rt).inv(),
        encodes(
            old(rt)@,
            final(rt)@,
            r,
            mlp_gelu_tanh_step(old(rt)@, gate@, up@, out@, n, scalars@),
        ),
        r is Ok && n > 0 && from_slot(scalars@, 3) && in_view(old(rt)@, final(rt)@) ==> gated_seen(
            old(rt)@,
            final(rt)@,
            "mlp_gelu_tanh"@,
            gate@,
            up@,
            out@,
            n,
            4,
            scalars@,
        ),
{
    broadcast use law_mlp_gelu_tanh;

    let gate = &gate.at();
    let up = &up.at();
    let out = &out.at();
    let id: u64 = rt.id();
    require(id, gate, n as usize, WORD, "mlp_gelu_tanh gate")?;
    require(id, up, n as usize, WORD, "mlp_gelu_tanh up")?;
    require(id, out, n as usize, WORD, "mlp_gelu_tanh out")?;
    let p = rt.pipeline("mlp_gelu_tanh")?;
    let head = [buf(gate, 0), buf(up, 1), buf(out, 2)];
    assert(head@ =~= seq![at(*gate, 0), at(*up, 1), at(*out, 2)]);
    let binds = bind_list(&head, scalars);
    launch_1d(rt, &p, n as usize, binds.as_slice())
}

/// `out[i] = gelu_pytorch_tanh(gate[i]) * up[i]`.
pub fn mlp_gelu_tanh(
    rt: &mut GpuRuntime,
    gate: &GpuBuffer,
    up: &GpuBuffer,
    out: &GpuBuffer,
    n: u32,
) -> (r: Result<(), String>)
    requires
        old(rt).inv(),
    ensures
        final(rt).inv(),
        encodes(
            old(rt)@,
            final(rt)@,
            r,
            mlp_gelu_tanh_step(old(rt)@, gate@, up@, out@, n, seq![word_at(n, 3)]),
        ),
        r is Ok && n > 0 && in_view(old(rt)@, final(rt)@) ==> ({
                let l = dispatch(old(rt)@, final(rt)@);
                &&& gated_seen(
                    old(rt)@,
                    final(rt)@,
                    "mlp_gelu_tanh"@,
                    gate@,
                    up@,
                    out@,
                    n,
                    4,
                    Seq::empty(),
                )
                &&& l.reads(3, n)
            }),
{
    proof {
        reveal_with_fuel(rising, 8);
        reveal(carried);
    }
    let scalars = [word(n, 3)];
    assert(scalars@ =~= seq![word_at(n, 3)]);
    mlp_gelu_tanh_with_scalars(rt, gate, up, out, n, &scalars)
}

/// Effect of [`mlp_gelu_tanh_bf16_with_scalars`].
pub open spec fn mlp_gelu_tanh_bf16_step(
    rt: RuntimeState,
    gate: Storage,
    up: Storage,
    out: Storage,
    n: u32,
    scalars: Seq<Bind>,
) -> (RuntimeState, Option<Seq<char>>) {
    rt.guarded(
        first(
            require_problem(rt.id, gate, n as int, 4, "mlp_gelu_tanh_bf16 gate"@),
            first(
                require_problem(rt.id, up, n as int, 4, "mlp_gelu_tanh_bf16 up"@),
                require_problem(rt.id, out, n as int, 2, "mlp_gelu_tanh_bf16 out"@),
            ),
        ),
        n == 0,
        disjoint_problem(
            "mlp_gelu_tanh_bf16"@,
            seq![("out", &out)],
            seq![("gate", &gate), ("up", &up)],
        ),
        rt.kernel_1d(
            "mlp_gelu_tanh_bf16"@,
            n as usize,
            seq![at(gate, 0), at(up, 1), at(out, 2)] + scalars,
        ),
    )
}

/// [`mlp_gelu_tanh_bf16`] with caller-supplied scalar binds: 3 = `n`.
pub fn mlp_gelu_tanh_bf16_with_scalars(
    rt: &mut GpuRuntime,
    gate: &GpuBuffer,
    up: &GpuBuffer,
    out: &GpuBuffer,
    n: u32,
    scalars: &[Bind],
) -> (r: Result<(), String>)
    requires
        old(rt).inv(),
    ensures
        final(rt).inv(),
        encodes(
            old(rt)@,
            final(rt)@,
            r,
            mlp_gelu_tanh_bf16_step(old(rt)@, gate@, up@, out@, n, scalars@),
        ),
        r is Ok && n > 0 && from_slot(scalars@, 3) && in_view(old(rt)@, final(rt)@) ==> gated_seen(
            old(rt)@,
            final(rt)@,
            "mlp_gelu_tanh_bf16"@,
            gate@,
            up@,
            out@,
            n,
            2,
            scalars@,
        ),
{
    broadcast use law_mlp_gelu_tanh_bf16;

    let gate = &gate.at();
    let up = &up.at();
    let out = &out.at();
    let id: u64 = rt.id();
    require(id, gate, n as usize, WORD, "mlp_gelu_tanh_bf16 gate")?;
    require(id, up, n as usize, WORD, "mlp_gelu_tanh_bf16 up")?;
    require(id, out, n as usize, HALF, "mlp_gelu_tanh_bf16 out")?;
    if n == 0 {
        return Ok(());
    }
    let writes = [("out", out)];
    let reads = [("gate", gate), ("up", up)];
    assert(writes@ =~= seq![("out", out)]);
    assert(reads@ =~= seq![("gate", gate), ("up", up)]);
    require_disjoint_writes("mlp_gelu_tanh_bf16", &writes, &reads)?;
    let p = rt.pipeline("mlp_gelu_tanh_bf16")?;
    let head = [buf(gate, 0), buf(up, 1), buf(out, 2)];
    assert(head@ =~= seq![at(*gate, 0), at(*up, 1), at(*out, 2)]);
    let binds = bind_list(&head, scalars);
    launch_1d(rt, &p, n as usize, binds.as_slice())
}

/// [`mlp_gelu_tanh`] writing bf16. The output may not alias an input, whose
/// elements are twice as wide.
pub fn mlp_gelu_tanh_bf16(
    rt: &mut GpuRuntime,
    gate: &GpuBuffer,
    up: &GpuBuffer,
    out: &GpuBuffer,
    n: u32,
) -> (r: Result<(), String>)
    requires
        old(rt).inv(),
    ensures
        final(rt).inv(),
        encodes(
            old(rt)@,
            final(rt)@,
            r,
            mlp_gelu_tanh_bf16_step(old(rt)@, gate@, up@, out@, n, seq![word_at(n, 3)]),
        ),
        r is Ok && n > 0 && in_view(old(rt)@, final(rt)@) ==> ({
                let l = dispatch(old(rt)@, final(rt)@);
                &&& gated_seen(
                    old(rt)@,
                    final(rt)@,
                    "mlp_gelu_tanh_bf16"@,
                    gate@,
                    up@,
                    out@,
                    n,
                    2,
                    Seq::empty(),
                )
                &&& l.reads(3, n)
            }),
{
    proof {
        reveal_with_fuel(rising, 8);
        reveal(carried);
    }
    let scalars = [word(n, 3)];
    assert(scalars@ =~= seq![word_at(n, 3)]);
    mlp_gelu_tanh_bf16_with_scalars(rt, gate, up, out, n, &scalars)
}

/// Effect of [`scale_f32_inplace_with_scalars`].
pub open spec fn scale_f32_inplace_step(
    rt: RuntimeState,
    x: Storage,
    n: u32,
    scalars: Seq<Bind>,
) -> (RuntimeState, Option<Seq<char>>) {
    rt.guarded(
        require_problem(rt.id, x, n as int, 4, "scale_f32_inplace x"@),
        false,
        None,
        rt.kernel_1d("scale_f32_inplace"@, n as usize, seq![at(x, 0)] + scalars),
    )
}

/// [`scale_f32_inplace`] with caller-supplied scalar binds: 1 =
/// `scale`, 2 = `n`.
pub fn scale_f32_inplace_with_scalars(
    rt: &mut GpuRuntime,
    x: &GpuBuffer,
    n: u32,
    scalars: &[Bind],
) -> (r: Result<(), String>)
    requires
        old(rt).inv(),
    ensures
        final(rt).inv(),
        encodes(
            old(rt)@,
            final(rt)@,
            r,
            scale_f32_inplace_step(old(rt)@, x@, n, scalars@),
        ),
        r is Ok && n > 0 && from_slot(scalars@, 1) && in_view(old(rt)@, final(rt)@) ==> scaled_seen(
            old(rt)@,
            final(rt)@,
            x@,
            n,
            scalars@,
        ),
{
    broadcast use law_scale_f32_inplace;

    let x = &x.at();
    let id: u64 = rt.id();
    require(id, x, n as usize, WORD, "scale_f32_inplace x")?;
    let p = rt.pipeline("scale_f32_inplace")?;
    let head = [buf(x, 0)];
    assert(head@ =~= seq![at(*x, 0)]);
    let binds = bind_list(&head, scalars);
    launch_1d(rt, &p, n as usize, binds.as_slice())
}

/// `x[i] *= scale`, in place. `scale` is a float's bit pattern.
pub fn scale_f32_inplace(
    rt: &mut GpuRuntime,
    x: &GpuBuffer,
    scale: u32,
    n: u32,
) -> (r: Result<(), String>)
    requires
        old(rt).inv(),
    ensures
        final(rt).inv(),
        encodes(
            old(rt)@,
            final(rt)@,
            r,
            scale_f32_inplace_step(old(rt)@, x@, n, seq![float_at(scale, 1), word_at(n, 2)]),
        ),
        r is Ok && n > 0 && in_view(old(rt)@, final(rt)@) ==> ({
                let l = dispatch(old(rt)@, final(rt)@);
                &&& scaled_seen(
                    old(rt)@,
                    final(rt)@,
                    x@,
                    n,
                    Seq::empty(),
                )
                &&& l.reads(1, scale)
                &&& l.reads(2, n)
            }),
{
    proof {
        reveal_with_fuel(rising, 8);
        reveal(carried);
    }
    let scalars = [float(scale, 1), word(n, 2)];
    assert(scalars@ =~= seq![float_at(scale, 1), word_at(n, 2)]);
    scale_f32_inplace_with_scalars(rt, x, n, &scalars)
}
// ---------------------------------------------------------- reductions -----

/// Effect of a row reduction that writes `out_per_row` floats per row.
pub open spec fn row_reduce_step(
    rt: RuntimeState,
    entry: Seq<char>,
    x: Storage,
    out: Storage,
    rows: u32,
    cols: u32,
    out_per_row: u32,
) -> (RuntimeState, Option<Seq<char>>) {
    rt.guarded(
        first(
            unless(cols != 0, entry + ": cols must be non-zero"@),
            first(
                unless(rows * cols <= usize::MAX, overflow_message(entry)),
                first(
                    require_problem(rt.id, x, rows * cols, 4, entry + " x"@),
                    first(
                        unless(rows * out_per_row <= usize::MAX, overflow_message(entry)),
                        require_problem(rt.id, out, rows * out_per_row, 4, entry + " out"@),
                    ),
                ),
            ),
        ),
        false,
        None,
        rt.kernel_groups(
            entry,
            seq![at(x, 0), at(out, 1), word_at(cols, 2)],
            None,
            rows as usize,
            1,
            |p: Pipeline| row_lanes(p.max_threads, cols as usize),
        ),
    )
}

fn row_reduce(
    rt: &mut GpuRuntime,
    entry: &str,
    x: &Storage,
    out: &Storage,
    rows: u32,
    cols: u32,
    out_per_row: u32,
) -> (r: Result<(), String>)
    requires
        old(rt).inv(),
    ensures
        final(rt).inv(),
        encodes(
            old(rt)@,
            final(rt)@,
            r,
            row_reduce_step(old(rt)@, entry@, *x, *out, rows, cols, out_per_row),
        ),
{
    let id: u64 = rt.id();
    if cols == 0 {
        return Err(Msg::new(entry).text(": cols must be non-zero").done());
    }
    let n: usize = elems(rows, cols, entry)?;
    require(id, x, n, WORD, join(entry, " x").as_str())?;
    let m: usize = elems(rows, out_per_row, entry)?;
    require(id, out, m, WORD, join(entry, " out").as_str())?;
    let p = rt.pipeline(entry)?;
    let tptg: usize = reduce_tptg(p.max_threads, cols as usize);
    let binds = [buf(x, 0), buf(out, 1), word(cols, 2)];
    assert(binds@ =~= seq![at(*x, 0), at(*out, 1), word_at(cols, 2)]);
    launch_groups(rt, &p, &binds, None, rows as usize, 1, tptg)
}

/// `out[r, :] = softmax(x[r, :])` over `rows` rows of `cols` each. `x` and `out`
/// may be the same buffer.
pub fn softmax_rows_f32(
    rt: &mut GpuRuntime,
    x: &GpuBuffer,
    out: &GpuBuffer,
    rows: u32,
    cols: u32,
) -> (r: Result<(), String>)
    requires
        old(rt).inv(),
    ensures
        final(rt).inv(),
        encodes(
            old(rt)@,
            final(rt)@,
            r,
            row_reduce_step(old(rt)@, "softmax_rows_f32"@, x@, out@, rows, cols, cols),
        ),
        r is Ok && rows > 0 && in_view(old(rt)@, final(rt)@) ==> reduced_seen(
            old(rt)@,
            final(rt)@,
            "softmax_rows_f32"@,
            x@,
            out@,
            rows,
            cols,
            cols as int,
        ),
{
    broadcast use law_row_reduce;

    let x = &x.at();
    let out = &out.at();
    row_reduce(rt, "softmax_rows_f32", x, out, rows, cols, cols)
}

/// `out[r] = sum(x[r, :])`. `out` holds one float per row.
pub fn row_sum_f32(rt: &mut GpuRuntime, x: &GpuBuffer, out: &GpuBuffer, rows: u32, cols: u32) -> (r:
    Result<(), String>)
    requires
        old(rt).inv(),
    ensures
        final(rt).inv(),
        encodes(
            old(rt)@,
            final(rt)@,
            r,
            row_reduce_step(old(rt)@, "row_sum_f32"@, x@, out@, rows, cols, 1),
        ),
        r is Ok && rows > 0 && in_view(old(rt)@, final(rt)@) ==> reduced_seen(
            old(rt)@,
            final(rt)@,
            "row_sum_f32"@,
            x@,
            out@,
            rows,
            cols,
            1,
        ),
{
    broadcast use law_row_reduce;

    let x = &x.at();
    let out = &out.at();
    row_reduce(rt, "row_sum_f32", x, out, rows, cols, 1)
}

/// `out[r] = max(x[r, :])`. `out` holds one float per row.
pub fn row_max_f32(rt: &mut GpuRuntime, x: &GpuBuffer, out: &GpuBuffer, rows: u32, cols: u32) -> (r:
    Result<(), String>)
    requires
        old(rt).inv(),
    ensures
        final(rt).inv(),
        encodes(
            old(rt)@,
            final(rt)@,
            r,
            row_reduce_step(old(rt)@, "row_max_f32"@, x@, out@, rows, cols, 1),
        ),
        r is Ok && rows > 0 && in_view(old(rt)@, final(rt)@) ==> reduced_seen(
            old(rt)@,
            final(rt)@,
            "row_max_f32"@,
            x@,
            out@,
            rows,
            cols,
            1,
        ),
{
    broadcast use law_row_reduce;

    let x = &x.at();
    let out = &out.at();
    row_reduce(rt, "row_max_f32", x, out, rows, cols, 1)
}

} // verus!
