//! Multiplication with one operand stored transposed, and accumulation into C.

use vstd::prelude::*;

use crate::ab_flags::{gemm_accum, gemm_accum_dx};
use crate::dispatch::{launch_1d, tensor_bind, Bind};
use crate::gemm::cast::{choose_cast, ensure_bf16, operand_bind, release};
use crate::gemm::matmul::{gemm_f32, gemm_step, with_bf16};
use crate::gemm::operand::{
    foreign_problem, gemm_extents, gemm_problem, operand, require_own, use_bf16_gemm,
    validate_gemm, wants_bf16, GemmBackend, Layout, Operand,
};
use crate::gemm::tiles::{
    flags_read, interior, interior_bind, launch_split, launch_tiled, launch_zeroed,
    prefer_tn_splitk, split_step, splits, tiled_step, zeroed_step, TileGeom,
};
use crate::nn::check::{word, word_at};
use crate::runtime::{has_tensorops_of, GpuRuntime};
use crate::sizes::{ints, product};
use crate::state::RuntimeState;
use crate::tensor::{BufferKind, DType, Tensor};
use crate::text::{first, reports};
use crate::gemm::transposed_laws::{
    both_bf16, in_bf16, law_nt_added, law_nt_bf16, law_nt_f32, law_tn_added, law_tn_bf16,
    law_tn_f32, nt_added_seen, nt_seen, tensorops, tn_added_seen, tn_seen,
};
use crate::seen::in_view;

verus! {

// ---------------------------------------------------------- temporaries ----

/// A temporary: from the bump arena where it serves the shape, pooled
/// otherwise.
pub open spec fn temp_step(rt: RuntimeState, shape: Seq<usize>) -> (
    RuntimeState,
    Result<Operand, Seq<char>>,
) {
    match rt.bump_problem(shape) {
        None => (
            rt.bumped((product(ints(shape)) * 4) as usize),
            Ok(
                Operand {
                    buffer: rt.bump->0.buffer,
                    shape,
                    dtype: DType::F32,
                    byte_offset: rt.bump_start() as usize,
                    runtime: rt.id,
                },
            ),
        ),
        Some(_) => {
            let (s, e) = rt.tensor_allocated(shape, DType::F32, BufferKind::Cold);
            match e {
                Err(m) => (s, Err(m)),
                Ok(buffer) => (
                    s,
                    Ok(
                        Operand {
                            buffer,
                            shape,
                            dtype: DType::F32,
                            byte_offset: 0,
                            runtime: rt.id,
                        },
                    ),
                ),
            }
        },
    }
}

/// After a temporary was let go.
pub open spec fn temp_gone(rt: RuntimeState, t: Operand) -> RuntimeState {
    rt.retired(t.buffer)
}

fn temp(rt: &mut GpuRuntime, rows: usize, cols: usize) -> (r: Result<Tensor, String>)
    requires
        old(rt).inv(),
    ensures
        final(rt).inv(),
        final(rt)@ == temp_step(old(rt)@, seq![rows, cols]).0,
        match temp_step(old(rt)@, seq![rows, cols]).1 {
            Ok(t) => r is Ok && operand(r->Ok_0) == t,
            Err(m) => r is Err && r->Err_0@ == m,
        },
{
    proof {
        rt.lemma_inv();
    }
    let shape: [usize; 2] = [rows, cols];
    assert(shape@ =~= seq![rows, cols]);
    match rt.alloc_temp_f32(&shape) {
        Ok(t) => {
            assert(temp_step(old(rt)@, seq![rows, cols]).1 is Ok);
            assert(operand(t) =~= temp_step(old(rt)@, seq![rows, cols]).1->Ok_0);
            Ok(t)
        },
        Err(e) => Err(e),
    }
}

fn drop_temp(rt: &mut GpuRuntime, t: Tensor)
    requires
        old(rt).inv(),
    ensures
        final(rt).inv(),
        final(rt)@ == temp_gone(old(rt)@, operand(t)),
{
    rt.recycle_buffer(t.buffer);
}

/// The first problem of a step on a temporary, or what follows it; the
/// temporary is let go either way.
pub open spec fn on_temp(
    rt: RuntimeState,
    shape: Seq<usize>,
    fill: spec_fn(RuntimeState, Operand) -> (RuntimeState, Option<Seq<char>>),
    use_it: spec_fn(RuntimeState, Operand) -> (RuntimeState, Option<Seq<char>>),
) -> (RuntimeState, Option<Seq<char>>) {
    let (s, t) = temp_step(rt, shape);
    match t {
        Err(e) => (s, Some(e)),
        Ok(x) => {
            let (u, filled) = fill(s, x);
            match filled {
                Some(e) => (temp_gone(u, x), Some(e)),
                None => {
                    let (v, used) = use_it(u, x);
                    (temp_gone(v, x), used)
                },
            }
        },
    }
}

/// Effect of a transposition of a matrix of `rows` x `cols` into `out`.
pub open spec fn transpose_step(
    rt: RuntimeState,
    t: Operand,
    out: Operand,
    rows: usize,
    cols: usize,
) -> (RuntimeState, Option<Seq<char>>) {
    rt.kernel_1d(
        "transpose2d_f32"@,
        (rows * cols) as usize,
        seq![
            operand_bind(t, 0),
            operand_bind(out, 1),
            word_at(rows as u32, 2),
            word_at(cols as u32, 3),
        ],
    )
}

fn transpose(rt: &mut GpuRuntime, t: &Tensor, out: &Tensor, rows: usize, cols: usize) -> (r: Result<
    (),
    String,
>)
    requires
        old(rt).inv(),
        rows * cols <= usize::MAX,
    ensures
        final(rt).inv(),
        ({
            let (s, problem) = transpose_step(
                old(rt)@,
                operand(*t),
                operand(*out),
                rows,
                cols,
            );
            final(rt)@ == s && reports(r, problem)
        }),
{
    let p = rt.pipeline("transpose2d_f32")?;
    let binds = [
        tensor_bind(t, 0),
        tensor_bind(out, 1),
        word(rows as u32, 2),
        word(cols as u32, 3),
    ];
    assert(binds@ =~= seq![
        operand_bind(operand(*t), 0),
        operand_bind(operand(*out), 1),
        word_at(rows as u32, 2),
        word_at(cols as u32, 3),
    ]);
    launch_1d(rt, &p, rows * cols, &binds)
}

/// Effect of `C += T`.
pub open spec fn add_step(rt: RuntimeState, c: Operand, t: Operand) -> (
    RuntimeState,
    Option<Seq<char>>,
) {
    rt.kernel_1d(
        "add_inplace_f32"@,
        c.count() as usize,
        seq![operand_bind(c, 0), operand_bind(t, 1), word_at(c.count() as u32, 2)],
    )
}

fn add_into(rt: &mut GpuRuntime, c: &Tensor, t: &Tensor) -> (r: Result<(), String>)
    requires
        old(rt).inv(),
        c.valid(),
    ensures
        final(rt).inv(),
        ({
            let (s, problem) = add_step(old(rt)@, operand(*c), operand(*t));
            final(rt)@ == s && reports(r, problem)
        }),
{
    proof {
        crate::tensor::lemma_span(*c);
    }
    let p = rt.pipeline("add_inplace_f32")?;
    let count: usize = c.numel();
    let binds = [tensor_bind(c, 0), tensor_bind(t, 1), word(count as u32, 2)];
    assert(binds@ =~= seq![
        operand_bind(operand(*c), 0),
        operand_bind(operand(*t), 1),
        word_at(operand(*c).count() as u32, 2),
    ]);
    launch_1d(rt, &p, count, &binds)
}

/// TensorOps is asked for and there.
pub open spec fn has_descriptors(rt: RuntimeState, backend: GemmBackend) -> bool {
    backend == GemmBackend::TensorOps && has_tensorops_of(rt.kernels)
}

fn use_descriptors(rt: &GpuRuntime, backend: GemmBackend) -> (r: bool)
    ensures
        r == has_descriptors(rt@, backend),
{
    backend == GemmBackend::TensorOps && rt.has_tensorops()
}

// --------------------------------------------------------------- TN -------

/// Effect of [`gemm_tn_f32`].
pub open spec fn tn_f32_step(
    rt: RuntimeState,
    a: Operand,
    b: Operand,
    c: Operand,
    backend: GemmBackend,
) -> (RuntimeState, Option<Seq<char>>) {
    let (m, n, k, k2) = gemm_extents(a, b, Layout::TN);
    match first(foreign_problem(rt.id, a), gemm_problem(a, b, c, Layout::TN, false)) {
        Some(e) => (rt, Some(e)),
        None => if has_descriptors(rt, backend) {
            if splits(m, n, k) {
                split_step(
                    rt,
                    "matmul2d_tensorops_tn_splitk_f32"@,
                    a,
                    b,
                    c,
                    m,
                    n,
                    k,
                    TileGeom::F32,
                    true,
                )
            } else {
                zeroed_step(rt, "matmul2d_tensorops_tn_f32"@, a, b, c, m, n, k, TileGeom::F32)
            }
        } else {
            on_temp(
                rt,
                seq![m, k],
                |s: RuntimeState, x: Operand| transpose_step(s, a, x, k, m),
                |s: RuntimeState, x: Operand| gemm_step(s, x, b, c, backend),
            )
        },
    }
}

/// `C[M,N] = A[K,M]^T @ B[K,N]` over f32 operands.
/// TensorOps takes the transposed operand as it is stored, split over K where that
/// pays; elsewhere A is transposed first.
pub fn gemm_tn_f32(rt: &mut GpuRuntime, a: &Tensor, b: &Tensor, c: &Tensor, backend: GemmBackend) -> (r:
    Result<(), String>)
    requires
        old(rt).inv(),
    ensures
        final(rt).inv(),
        ({
            let (s, problem) = tn_f32_step(
                old(rt)@,
                operand(*a),
                operand(*b),
                operand(*c),
                backend,
            );
            final(rt)@ == s && reports(r, problem)
        }),
        r is Ok && tensorops(old(rt)@, backend) && in_view(old(rt)@, final(rt)@) ==> tn_seen(
            old(rt)@,
            final(rt)@,
            operand(*a),
            operand(*b),
            operand(*c),
        ),
{
    broadcast use law_tn_f32;

    let id: u64 = rt.id();
    require_own(id, a)?;
    let (m, n, k): (usize, usize, usize) = validate_gemm(a, b, c, Layout::TN, false)?;
    if use_descriptors(rt, backend) {
        if prefer_tn_splitk(m, n, k) {
            return launch_split(
                rt,
                "matmul2d_tensorops_tn_splitk_f32",
                a,
                b,
                c,
                m,
                n,
                k,
                TileGeom::F32,
                true,
            );
        }
        return launch_zeroed(rt, "matmul2d_tensorops_tn_f32", a, b, c, m, n, k, TileGeom::F32);
    }
    assert(k * m == m * k) by (nonlinear_arith);
    let at = temp(rt, m, k)?;
    let r = match transpose(rt, a, &at, k, m) {
        Ok(()) => gemm_f32(rt, &at, b, c, backend),
        Err(e) => Err(e),
    };
    drop_temp(rt, at);
    r
}

/// Effect of [`gemm_tn_train`].
pub open spec fn tn_train_step(
    rt: RuntimeState,
    a: Operand,
    b: Operand,
    c: Operand,
    backend: GemmBackend,
) -> (RuntimeState, Option<Seq<char>>) {
    let (m, n, k, k2) = gemm_extents(a, b, Layout::TN);
    match first(
        foreign_problem(rt.id, a),
        gemm_problem(a, b, c, Layout::TN, wants_bf16(rt, backend)),
    ) {
        Some(e) => (rt, Some(e)),
        None => if wants_bf16(rt, backend) {
            with_bf16(
                rt,
                a,
                b,
                |s: RuntimeState, x: Operand, y: Operand|
                    if splits(m, n, k) {
                        split_step(
                            s,
                            "matmul2d_tensorops_tn_splitk_bf16_f32"@,
                            x,
                            y,
                            c,
                            m,
                            n,
                            k,
                            TileGeom::SplitBf16,
                            true,
                        )
                    } else {
                        tiled_step(
                        s,
                        "matmul2d_tensorops_tn_bf16_f32"@,
                        x,
                        y,
                        c,
                        m,
                        n,
                        k,
                        TileGeom::Coop,
                        Seq::empty(),
                        1,
                    )
                    },
            )
        } else {
            tn_f32_step(rt, a, b, c, backend)
        },
    }
}

/// `C[M,N] = A[K,M]^T @ B[K,N]` under the runtime's precision policy.
pub fn gemm_tn_train(rt: &mut GpuRuntime, a: &Tensor, b: &Tensor, c: &Tensor, backend: GemmBackend) -> (r:
    Result<(), String>)
    requires
        old(rt).inv(),
    ensures
        final(rt).inv(),
        ({
            let (s, problem) = tn_train_step(
                old(rt)@,
                operand(*a),
                operand(*b),
                operand(*c),
                backend,
            );
            final(rt)@ == s && reports(r, problem)
        }),
        r is Ok && in_bf16(old(rt)@, backend) && both_bf16(operand(*a), operand(*b)) && in_view(old(rt)@, final(rt)@) ==> tn_seen(
            old(rt)@,
            final(rt)@,
            operand(*a),
            operand(*b),
            operand(*c),
        ),
{
    broadcast use law_tn_bf16;

    let id: u64 = rt.id();
    require_own(id, a)?;
    let narrow = use_bf16_gemm(rt, backend);
    let (m, n, k): (usize, usize, usize) = validate_gemm(a, b, c, Layout::TN, narrow)?;
    if narrow {
        let a_made = ensure_bf16(rt, a)?;
        let b_made = match ensure_bf16(rt, b) {
            Ok(t) => t,
            Err(e) => {
                release(rt, a_made);
                return Err(e);
            },
        };
        let a_bf = choose_cast(&a_made, a);
        let b_bf = choose_cast(&b_made, b);
        let none: [Bind; 0] = [];
        assert(none@ =~= Seq::<Bind>::empty());
        let r = if prefer_tn_splitk(m, n, k) {
            launch_split(
                rt,
                "matmul2d_tensorops_tn_splitk_bf16_f32",
                a_bf,
                b_bf,
                c,
                m,
                n,
                k,
                TileGeom::SplitBf16,
                true,
            )
        } else {
            launch_tiled(
                rt,
                "matmul2d_tensorops_tn_bf16_f32",
                a_bf,
                b_bf,
                c,
                m,
                n,
                k,
                TileGeom::Coop,
                &none,
                1,
            )
        };
        release(rt, b_made);
        release(rt, a_made);
        return r;
    }
    gemm_tn_f32(rt, a, b, c, backend)
}

/// Effect of [`gemm_tn_accum_train`].
pub open spec fn tn_accum_step(
    rt: RuntimeState,
    a: Operand,
    b: Operand,
    c: Operand,
    backend: GemmBackend,
) -> (RuntimeState, Option<Seq<char>>) {
    let (m, n, k, k2) = gemm_extents(a, b, Layout::TN);
    let flagged = flags_read(rt);
    match first(
        foreign_problem(rt.id, a),
        gemm_problem(a, b, c, Layout::TN, wants_bf16(rt, backend)),
    ) {
        Some(e) => (rt, Some(e)),
        None => {
            if rt.ab.gemm_value().1 && wants_bf16(rt, backend) {
                with_bf16(
                    flagged,
                    a,
                    b,
                    |s: RuntimeState, x: Operand, y: Operand|
                    if splits(m, n, k) {
                        split_step(
                            s,
                            "matmul2d_tensorops_tn_splitk_bf16_f32"@,
                            x,
                            y,
                            c,
                            m,
                            n,
                            k,
                            TileGeom::SplitBf16,
                            false,
                        )
                    } else {
                        tiled_step(
                        s,
                        "matmul2d_tensorops_tn_accum_bf16_f32"@,
                        x,
                        y,
                        c,
                        m,
                        n,
                        k,
                        TileGeom::CoopSquare,
                        Seq::empty(),
                        1,
                    )
                    },
                )
            } else if rt.ab.gemm_value().1 && has_descriptors(rt, backend) {
                if splits(m, n, k) {
                    split_step(
                        flagged,
                        "matmul2d_tensorops_tn_splitk_f32"@,
                        a,
                        b,
                        c,
                        m,
                        n,
                        k,
                        TileGeom::F32,
                        false,
                    )
                } else {
                    tiled_step(
                    flagged,
                    "matmul2d_tensorops_tn_accum_f32"@,
                    a,
                    b,
                    c,
                    m,
                    n,
                    k,
                    TileGeom::F32,
                    interior_bind(flagged),
                    1,
                )
                }
            } else {
                on_temp(
                    flagged,
                    seq![m, n],
                    |s: RuntimeState, x: Operand| tn_train_step(s, a, b, x, backend),
                    |s: RuntimeState, x: Operand| add_step(s, c, x),
                )
            }
        },
    }
}

/// `C += A[K,M]^T @ B[K,N]` without zeroing C. Where the accumulating kernels are not asked
/// for, the product goes to a temporary that is added to C.
pub fn gemm_tn_accum_train(rt: &mut GpuRuntime, a: &Tensor, b: &Tensor, c: &Tensor, backend: GemmBackend) -> (r:
    Result<(), String>)
    requires
        old(rt).inv(),
    ensures
        final(rt).inv(),
        ({
            let (s, problem) = tn_accum_step(
                old(rt)@,
                operand(*a),
                operand(*b),
                operand(*c),
                backend,
            );
            final(rt)@ == s && reports(r, problem)
        }),
        r is Ok && tensorops(old(rt)@, backend) && old(rt)@.ab.gemm_value().1 && (in_bf16(old(rt)@, backend) ==> both_bf16(operand(*a), operand(*b))) && in_view(old(rt)@, final(rt)@) ==> tn_added_seen(
            old(rt)@,
            final(rt)@,
            operand(*a),
            operand(*b),
            operand(*c),
        ),
{
    broadcast use law_tn_added;

    let id: u64 = rt.id();
    require_own(id, a)?;
    let narrow = use_bf16_gemm(rt, backend);
    let (m, n, k): (usize, usize, usize) = validate_gemm(a, b, c, Layout::TN, narrow)?;
    let accum = gemm_accum(rt.ab_flags());
    assert(rt@ =~= flags_read(old(rt)@));
    if accum && narrow {
        let a_made = ensure_bf16(rt, a)?;
        let b_made = match ensure_bf16(rt, b) {
            Ok(t) => t,
            Err(e) => {
                release(rt, a_made);
                return Err(e);
            },
        };
        let a_bf = choose_cast(&a_made, a);
        let b_bf = choose_cast(&b_made, b);
        let none: [Bind; 0] = [];
        assert(none@ =~= Seq::<Bind>::empty());
        let r = if prefer_tn_splitk(m, n, k) {
            launch_split(
                rt,
                "matmul2d_tensorops_tn_splitk_bf16_f32",
                a_bf,
                b_bf,
                c,
                m,
                n,
                k,
                TileGeom::SplitBf16,
                false,
            )
        } else {
            launch_tiled(
                rt,
                "matmul2d_tensorops_tn_accum_bf16_f32",
                a_bf,
                b_bf,
                c,
                m,
                n,
                k,
                TileGeom::CoopSquare,
                &none,
                1,
            )
        };
        release(rt, b_made);
        release(rt, a_made);
        return r;
    }
    if accum && use_descriptors(rt, backend) {
        if prefer_tn_splitk(m, n, k) {
            return launch_split(
                rt,
                "matmul2d_tensorops_tn_splitk_f32",
                a,
                b,
                c,
                m,
                n,
                k,
                TileGeom::F32,
                false,
            );
        }
        let flags = interior(rt);
        assert(rt@ =~= flags_read(old(rt)@));
        return launch_tiled(
            rt,
            "matmul2d_tensorops_tn_accum_f32",
            a,
            b,
            c,
            m,
            n,
            k,
            TileGeom::F32,
            &flags,
            1,
        );
    }
    let tmp = temp(rt, m, n)?;
    let r = match gemm_tn_train(rt, a, b, &tmp, backend) {
        Ok(()) => add_into(rt, c, &tmp),
        Err(e) => Err(e),
    };
    drop_temp(rt, tmp);
    r
}

// --------------------------------------------------------------- NT -------

/// Effect of [`gemm_nt_f32`].
pub open spec fn nt_f32_step(
    rt: RuntimeState,
    a: Operand,
    b: Operand,
    c: Operand,
    backend: GemmBackend,
) -> (RuntimeState, Option<Seq<char>>) {
    let (m, n, k, k2) = gemm_extents(a, b, Layout::NT);
    match first(foreign_problem(rt.id, a), gemm_problem(a, b, c, Layout::NT, false)) {
        Some(e) => (rt, Some(e)),
        None => if has_descriptors(rt, backend) {
            zeroed_step(rt, "matmul2d_tensorops_nt_f32"@, a, b, c, m, n, k, TileGeom::F32)
        } else {
            on_temp(
                rt,
                seq![k, n],
                |s: RuntimeState, x: Operand| transpose_step(s, b, x, n, k),
                |s: RuntimeState, x: Operand| gemm_step(s, a, x, c, backend),
            )
        },
    }
}

/// `C[M,N] = A[M,K] @ B[N,K]^T` over f32 operands.
/// TensorOps takes the transposed operand as it is stored; elsewhere B is
/// transposed first.
pub fn gemm_nt_f32(rt: &mut GpuRuntime, a: &Tensor, b: &Tensor, c: &Tensor, backend: GemmBackend) -> (r:
    Result<(), String>)
    requires
        old(rt).inv(),
    ensures
        final(rt).inv(),
        ({
            let (s, problem) = nt_f32_step(
                old(rt)@,
                operand(*a),
                operand(*b),
                operand(*c),
                backend,
            );
            final(rt)@ == s && reports(r, problem)
        }),
        r is Ok && tensorops(old(rt)@, backend) && in_view(old(rt)@, final(rt)@) ==> nt_seen(
            old(rt)@,
            final(rt)@,
            operand(*a),
            operand(*b),
            operand(*c),
        ),
{
    broadcast use law_nt_f32;

    let id: u64 = rt.id();
    require_own(id, a)?;
    let (m, n, k): (usize, usize, usize) = validate_gemm(a, b, c, Layout::NT, false)?;
    if use_descriptors(rt, backend) {
        return launch_zeroed(rt, "matmul2d_tensorops_nt_f32", a, b, c, m, n, k, TileGeom::F32);
    }
    let bt = temp(rt, k, n)?;
    let r = match transpose(rt, b, &bt, n, k) {
        Ok(()) => gemm_f32(rt, a, &bt, c, backend),
        Err(e) => Err(e),
    };
    drop_temp(rt, bt);
    r
}

/// Effect of [`gemm_nt_train`].
pub open spec fn nt_train_step(
    rt: RuntimeState,
    a: Operand,
    b: Operand,
    c: Operand,
    backend: GemmBackend,
) -> (RuntimeState, Option<Seq<char>>) {
    let (m, n, k, k2) = gemm_extents(a, b, Layout::NT);
    match first(
        foreign_problem(rt.id, a),
        gemm_problem(a, b, c, Layout::NT, wants_bf16(rt, backend)),
    ) {
        Some(e) => (rt, Some(e)),
        None => if wants_bf16(rt, backend) {
            with_bf16(
                rt,
                a,
                b,
                |s: RuntimeState, x: Operand, y: Operand|
                    tiled_step(
                        s,
                        "matmul2d_tensorops_nt_bf16_f32"@,
                        x,
                        y,
                        c,
                        m,
                        n,
                        k,
                        TileGeom::Coop,
                        Seq::empty(),
                        1,
                    ),
            )
        } else {
            nt_f32_step(rt, a, b, c, backend)
        },
    }
}

/// `C[M,N] = A[M,K] @ B[N,K]^T` under the runtime's precision policy.
pub fn gemm_nt_train(rt: &mut GpuRuntime, a: &Tensor, b: &Tensor, c: &Tensor, backend: GemmBackend) -> (r:
    Result<(), String>)
    requires
        old(rt).inv(),
    ensures
        final(rt).inv(),
        ({
            let (s, problem) = nt_train_step(
                old(rt)@,
                operand(*a),
                operand(*b),
                operand(*c),
                backend,
            );
            final(rt)@ == s && reports(r, problem)
        }),
        r is Ok && in_bf16(old(rt)@, backend) && both_bf16(operand(*a), operand(*b)) && in_view(old(rt)@, final(rt)@) ==> nt_seen(
            old(rt)@,
            final(rt)@,
            operand(*a),
            operand(*b),
            operand(*c),
        ),
{
    broadcast use law_nt_bf16;

    let id: u64 = rt.id();
    require_own(id, a)?;
    let narrow = use_bf16_gemm(rt, backend);
    let (m, n, k): (usize, usize, usize) = validate_gemm(a, b, c, Layout::NT, narrow)?;
    if narrow {
        let a_made = ensure_bf16(rt, a)?;
        let b_made = match ensure_bf16(rt, b) {
            Ok(t) => t,
            Err(e) => {
                release(rt, a_made);
                return Err(e);
            },
        };
        let a_bf = choose_cast(&a_made, a);
        let b_bf = choose_cast(&b_made, b);
        let none: [Bind; 0] = [];
        assert(none@ =~= Seq::<Bind>::empty());
        let r = launch_tiled(
                rt,
                "matmul2d_tensorops_nt_bf16_f32",
                a_bf,
                b_bf,
                c,
                m,
                n,
                k,
                TileGeom::Coop,
                &none,
                1,
            );
        release(rt, b_made);
        release(rt, a_made);
        return r;
    }
    gemm_nt_f32(rt, a, b, c, backend)
}

/// Effect of [`gemm_nt_accum_train`].
pub open spec fn nt_accum_step(
    rt: RuntimeState,
    a: Operand,
    b: Operand,
    c: Operand,
    backend: GemmBackend,
) -> (RuntimeState, Option<Seq<char>>) {
    let (m, n, k, k2) = gemm_extents(a, b, Layout::NT);
    let flagged = flags_read(rt);
    match first(
        foreign_problem(rt.id, a),
        gemm_problem(a, b, c, Layout::NT, wants_bf16(rt, backend)),
    ) {
        Some(e) => (rt, Some(e)),
        None => {
            if (rt.ab.gemm_value().1 || rt.ab.gemm_value().2) && wants_bf16(rt, backend) {
                with_bf16(
                    flagged,
                    a,
                    b,
                    |s: RuntimeState, x: Operand, y: Operand|
                    tiled_step(
                        s,
                        "matmul2d_tensorops_nt_accum_bf16_f32"@,
                        x,
                        y,
                        c,
                        m,
                        n,
                        k,
                        TileGeom::CoopSquare,
                        Seq::empty(),
                        1,
                    ),
                )
            } else if (rt.ab.gemm_value().1 || rt.ab.gemm_value().2) && has_descriptors(rt, backend) {
                tiled_step(
                    flagged,
                    "matmul2d_tensorops_nt_accum_f32"@,
                    a,
                    b,
                    c,
                    m,
                    n,
                    k,
                    TileGeom::F32,
                    interior_bind(flagged),
                    1,
                )
            } else {
                on_temp(
                    flagged,
                    seq![m, n],
                    |s: RuntimeState, x: Operand| nt_train_step(s, a, b, x, backend),
                    |s: RuntimeState, x: Operand| add_step(s, c, x),
                )
            }
        },
    }
}

/// `C += A[M,K] @ B[N,K]^T` without zeroing C. Where the accumulating kernels are not asked
/// for, the product goes to a temporary that is added to C. The accumulating kernels also run
/// where only the gradient-of-input flag asks for them.
pub fn gemm_nt_accum_train(rt: &mut GpuRuntime, a: &Tensor, b: &Tensor, c: &Tensor, backend: GemmBackend) -> (r:
    Result<(), String>)
    requires
        old(rt).inv(),
    ensures
        final(rt).inv(),
        ({
            let (s, problem) = nt_accum_step(
                old(rt)@,
                operand(*a),
                operand(*b),
                operand(*c),
                backend,
            );
            final(rt)@ == s && reports(r, problem)
        }),
        r is Ok && tensorops(old(rt)@, backend) && (old(rt)@.ab.gemm_value().1 || old(rt)@.ab.gemm_value().2) && (in_bf16(old(rt)@, backend) ==> both_bf16(operand(*a), operand(*b))) && in_view(old(rt)@, final(rt)@) ==> nt_added_seen(
            old(rt)@,
            final(rt)@,
            operand(*a),
            operand(*b),
            operand(*c),
        ),
{
    broadcast use law_nt_added;

    let id: u64 = rt.id();
    require_own(id, a)?;
    let narrow = use_bf16_gemm(rt, backend);
    let (m, n, k): (usize, usize, usize) = validate_gemm(a, b, c, Layout::NT, narrow)?;
    let accum = gemm_accum(rt.ab_flags());
    let accum = accum || gemm_accum_dx(rt.ab_flags());
    assert(rt@ =~= flags_read(old(rt)@));
    if accum && narrow {
        let a_made = ensure_bf16(rt, a)?;
        let b_made = match ensure_bf16(rt, b) {
            Ok(t) => t,
            Err(e) => {
                release(rt, a_made);
                return Err(e);
            },
        };
        let a_bf = choose_cast(&a_made, a);
        let b_bf = choose_cast(&b_made, b);
        let none: [Bind; 0] = [];
        assert(none@ =~= Seq::<Bind>::empty());
        let r = launch_tiled(
                rt,
                "matmul2d_tensorops_nt_accum_bf16_f32",
                a_bf,
                b_bf,
                c,
                m,
                n,
                k,
                TileGeom::CoopSquare,
                &none,
                1,
            );
        release(rt, b_made);
        release(rt, a_made);
        return r;
    }
    if accum && use_descriptors(rt, backend) {
        let flags = interior(rt);
        assert(rt@ =~= flags_read(old(rt)@));
        return launch_tiled(
            rt,
            "matmul2d_tensorops_nt_accum_f32",
            a,
            b,
            c,
            m,
            n,
            k,
            TileGeom::F32,
            &flags,
            1,
        );
    }
    let tmp = temp(rt, m, n)?;
    let r = match gemm_nt_train(rt, a, b, &tmp, backend) {
        Ok(()) => add_into(rt, c, &tmp),
        Err(e) => Err(e),
    };
    drop_temp(rt, tmp);
    r
}

} // verus!
