//! `C = A @ B`: plain, batched, and with a fused epilogue.

use vstd::prelude::*;

use crate::device::{mtl_size, size3};
use crate::dispatch::Bind;
use crate::gemm::cast::{bf16_step, choose_cast, ensure_bf16, let_go, release};
use crate::gemm::operand::{
    foreign_problem, gemm_extents, gemm_problem, operand, require_own, use_bf16_gemm,
    use_relaxed_f32, validate_gemm, wants_bf16, wants_relaxed, GemmBackend, Layout, Operand,
};
use crate::gemm::tiles::{
    bare, bare_bind, launch_tiled, launch_zeroed, saturated, tiled_step, zeroed_step, TileGeom,
};
use crate::nn::check::{
    finite, float, float_at, is_finite, nonfinite_str, nonfinite_text, word, word_at,
};
use crate::nn::gemv::{flag, flag_word};
use crate::runtime::GpuRuntime;
use crate::sizes::{ceil_div, div_ceil};
use crate::state::RuntimeState;
use crate::tensor::{DType, Tensor};
use crate::text::{decimal, first, owned, reports, unless, Msg};
use crate::seen::in_view;
use crate::gemm::laws::{batched_seen, epilogue_seen, gemm_seen, law_batched, law_epilogue, law_gemm};

verus! {

// ------------------------------------------------------------- elements ----

/// Operand element type of the cooperative kernels. The two half types have
/// the same size and different layouts.
#[derive(Clone, Copy, Debug, PartialEq, Eq, Structural)]
pub enum CoopElem {
    RelaxedF32,
    Bf16,
    F16,
}

/// Both operands have the element type.
pub open spec fn both(a: Operand, b: Operand, dtype: DType) -> bool {
    a.dtype == dtype && b.dtype == dtype
}

/// Element type of a cooperative multiplication.
pub open spec fn elem_of(a: Operand, b: Operand) -> CoopElem {
    if both(a, b, DType::BF16) {
        CoopElem::Bf16
    } else if both(a, b, DType::F16) {
        CoopElem::F16
    } else {
        CoopElem::RelaxedF32
    }
}

fn coop_elem(a: &Tensor, b: &Tensor) -> (r: CoopElem)
    ensures
        r == elem_of(operand(*a), operand(*b)),
{
    if a.dtype == DType::BF16 && b.dtype == DType::BF16 {
        CoopElem::Bf16
    } else if a.dtype == DType::F16 && b.dtype == DType::F16 {
        CoopElem::F16
    } else {
        CoopElem::RelaxedF32
    }
}

/// Kernel and geometry of a cooperative multiplication: the square geometry for
/// narrow outputs, the wide one elsewhere.
pub open spec fn coop_kernel(n: usize, elem: CoopElem) -> (Seq<char>, TileGeom) {
    if n <= 512 {
        (
            match elem {
                CoopElem::Bf16 => "matmul2d_tensorops_bf16_f32_64x64_sg4"@,
                CoopElem::F16 => "matmul2d_tensorops_f16_f32_64x64_sg4"@,
                CoopElem::RelaxedF32 => "matmul2d_tensorops_f32_relaxed_64x64_sg4"@,
            },
            TileGeom::CoopSquare,
        )
    } else {
        (
            match elem {
                CoopElem::Bf16 => "matmul2d_tensorops_bf16_f32"@,
                CoopElem::F16 => "matmul2d_tensorops_f16_f32"@,
                CoopElem::RelaxedF32 => "matmul2d_tensorops_f32_relaxed"@,
            },
            TileGeom::Coop,
        )
    }
}

fn nn_coop_kernel(n: usize, elem: CoopElem) -> (r: (&'static str, TileGeom))
    ensures
        (r.0@, r.1) == coop_kernel(n, elem),
{
    if n <= 512 {
        (
            match elem {
                CoopElem::Bf16 => "matmul2d_tensorops_bf16_f32_64x64_sg4",
                CoopElem::F16 => "matmul2d_tensorops_f16_f32_64x64_sg4",
                CoopElem::RelaxedF32 => "matmul2d_tensorops_f32_relaxed_64x64_sg4",
            },
            TileGeom::CoopSquare,
        )
    } else {
        (
            match elem {
                CoopElem::Bf16 => "matmul2d_tensorops_bf16_f32",
                CoopElem::F16 => "matmul2d_tensorops_f16_f32",
                CoopElem::RelaxedF32 => "matmul2d_tensorops_f32_relaxed",
            },
            TileGeom::Coop,
        )
    }
}

/// Effect of a cooperative multiplication, which writes C once.
pub open spec fn coop_step(
    rt: RuntimeState,
    a: Operand,
    b: Operand,
    c: Operand,
    m: usize,
    n: usize,
    k: usize,
) -> (RuntimeState, Option<Seq<char>>) {
    let (kernel, tile) = coop_kernel(n, elem_of(a, b));
    tiled_step(rt, kernel, a, b, c, m, n, k, tile, Seq::empty(), 1)
}

fn launch_coop(
    rt: &mut GpuRuntime,
    a: &Tensor,
    b: &Tensor,
    c: &Tensor,
    m: usize,
    n: usize,
    k: usize,
) -> (r: Result<(), String>)
    requires
        old(rt).inv(),
    ensures
        final(rt).inv(),
        ({
            let (s, problem) = coop_step(
                old(rt)@,
                operand(*a),
                operand(*b),
                operand(*c),
                m,
                n,
                k,
            );
            final(rt)@ == s && reports(r, problem)
        }),
{
    let (kernel, tile) = nn_coop_kernel(n, coop_elem(a, b));
    let none: [Bind; 0] = [];
    assert(none@ =~= Seq::<Bind>::empty());
    launch_tiled(rt, kernel, a, b, c, m, n, k, tile, &none, 1)
}

// ---------------------------------------------------------------- plain ----

/// Where the element types do not suit the family.
pub open spec fn elem_problem(a: Operand, b: Operand, backend: GemmBackend) -> Option<Seq<char>> {
    unless(
        a.dtype == b.dtype && (a.dtype == DType::F32 || backend == GemmBackend::TensorOps),
        "GEMM requires matching operand dtypes; bf16 and f16 require TensorOps"@,
    )
}

/// Simdgroup kernel of a shape: the edge kernel unless every extent is whole
/// tiles.
pub open spec fn simdgroup_kernel(m: usize, n: usize, k: usize) -> Seq<char> {
    if m % 16 != 0 || n % 16 != 0 || k % 8 != 0 {
        "matmul_simdgroup_edges_f32"@
    } else {
        "matmul_simdgroup_f32"@
    }
}

/// Effect of the simdgroup path.
pub open spec fn simdgroup_step(
    rt: RuntimeState,
    a: Operand,
    b: Operand,
    c: Operand,
    m: usize,
    n: usize,
    k: usize,
) -> (RuntimeState, Option<Seq<char>>) {
    let (s, r) = rt.piped(simdgroup_kernel(m, n, k));
    match r {
        Err(e) => (s, Some(e)),
        Ok(p) => s.launched(
            p,
            seq![
                bare(a, 0),
                bare(b, 1),
                bare(c, 2),
                word_at(m as u32, 3),
                word_at(n as u32, 4),
                word_at(k as u32, 5),
            ],
            None,
            size3(ceil_div(n as int, 16) as usize, ceil_div(m as int, 16) as usize, 1),
            size3(saturated(p.thread_execution_width * 4), 1, 1),
        ),
    }
}

fn launch_simdgroup(
    rt: &mut GpuRuntime,
    a: &Tensor,
    b: &Tensor,
    c: &Tensor,
    m: usize,
    n: usize,
    k: usize,
) -> (r: Result<(), String>)
    requires
        old(rt).inv(),
    ensures
        final(rt).inv(),
        ({
            let (s, problem) = simdgroup_step(
                old(rt)@,
                operand(*a),
                operand(*b),
                operand(*c),
                m,
                n,
                k,
            );
            final(rt)@ == s && reports(r, problem)
        }),
{
    let kernel = if m % 16 != 0 || n % 16 != 0 || k % 8 != 0 {
        "matmul_simdgroup_edges_f32"
    } else {
        "matmul_simdgroup_f32"
    };
    let p = rt.pipeline(kernel)?;
    let threads: usize = match p.thread_execution_width.checked_mul(4) {
        Some(t) => t,
        None => usize::MAX,
    };
    let binds = [
        bare_bind(a, 0),
        bare_bind(b, 1),
        bare_bind(c, 2),
        word(m as u32, 3),
        word(n as u32, 4),
        word(k as u32, 5),
    ];
    assert(binds@ =~= seq![
        bare(operand(*a), 0),
        bare(operand(*b), 1),
        bare(operand(*c), 2),
        word_at(m as u32, 3),
        word_at(n as u32, 4),
        word_at(k as u32, 5),
    ]);
    rt.launch(
        &p,
        &binds,
        None,
        mtl_size(div_ceil(n, 16), div_ceil(m, 16), 1),
        mtl_size(threads, 1, 1),
    )
}

/// Effect of [`gemm`].
pub open spec fn gemm_step(
    rt: RuntimeState,
    a: Operand,
    b: Operand,
    c: Operand,
    backend: GemmBackend,
) -> (RuntimeState, Option<Seq<char>>) {
    let (m, n, k, k2) = gemm_extents(a, b, Layout::NN);
    let problem = first(
        foreign_problem(rt.id, a),
        first(gemm_problem(a, b, c, Layout::NN, true), elem_problem(a, b, backend)),
    );
    match problem {
        Some(e) => (rt, Some(e)),
        None => match backend {
            GemmBackend::TensorOps => if a.dtype != DType::F32 || wants_relaxed(rt, backend) {
                coop_step(rt, a, b, c, m, n, k)
            } else {
                zeroed_step(rt, "matmul2d_tensorops_f32"@, a, b, c, m, n, k, TileGeom::F32)
            },
            GemmBackend::Simdgroup => simdgroup_step(rt, a, b, c, m, n, k),
        },
    }
}

/// `C[M,N] = A[M,K] @ B[K,N]`, overwriting C, which is f32. The operands are
/// both f32, or both bf16 or both f16 on TensorOps.
pub fn gemm(rt: &mut GpuRuntime, a: &Tensor, b: &Tensor, c: &Tensor, backend: GemmBackend) -> (r:
    Result<(), String>)
    requires
        old(rt).inv(),
    ensures
        final(rt).inv(),
        ({
            let (s, problem) = gemm_step(
                old(rt)@,
                operand(*a),
                operand(*b),
                operand(*c),
                backend,
            );
            final(rt)@ == s && reports(r, problem)
        }),
        r is Ok && in_view(old(rt)@, final(rt)@) ==> gemm_seen(
            old(rt)@,
            final(rt)@,
            operand(*a),
            operand(*b),
            operand(*c),
            backend,
        ),
{
    broadcast use law_gemm;

    let id: u64 = rt.id();
    require_own(id, a)?;
    let (m, n, k): (usize, usize, usize) = validate_gemm(a, b, c, Layout::NN, true)?;
    if a.dtype != b.dtype || (a.dtype != DType::F32 && backend != GemmBackend::TensorOps) {
        return Err(owned("GEMM requires matching operand dtypes; bf16 and f16 require TensorOps"));
    }
    match backend {
        GemmBackend::TensorOps => {
            if a.dtype != DType::F32 || use_relaxed_f32(rt, backend) {
                launch_coop(rt, a, b, c, m, n, k)
            } else {
                launch_zeroed(rt, "matmul2d_tensorops_f32", a, b, c, m, n, k, TileGeom::F32)
            }
        },
        GemmBackend::Simdgroup => launch_simdgroup(rt, a, b, c, m, n, k),
    }
}

/// [`gemm`], by the name of the parity path.
pub fn gemm_f32(rt: &mut GpuRuntime, a: &Tensor, b: &Tensor, c: &Tensor, backend: GemmBackend) -> (r:
    Result<(), String>)
    requires
        old(rt).inv(),
    ensures
        final(rt).inv(),
        ({
            let (s, problem) = gemm_step(
                old(rt)@,
                operand(*a),
                operand(*b),
                operand(*c),
                backend,
            );
            final(rt)@ == s && reports(r, problem)
        }),
        r is Ok && in_view(old(rt)@, final(rt)@) ==> gemm_seen(
            old(rt)@,
            final(rt)@,
            operand(*a),
            operand(*b),
            operand(*c),
            backend,
        ),
{
    gemm(rt, a, b, c, backend)
}

/// Both operands as bf16, cast where they are not, and let go afterwards.
pub open spec fn with_bf16(
    rt: RuntimeState,
    a: Operand,
    b: Operand,
    go: spec_fn(RuntimeState, Operand, Operand) -> (RuntimeState, Option<Seq<char>>),
) -> (RuntimeState, Option<Seq<char>>) {
    let (s, x) = bf16_step(rt, a);
    match x {
        Err(e) => (s, Some(e)),
        Ok((a2, a_made)) => {
            let (t, y) = bf16_step(s, b);
            match y {
                Err(e) => (let_go(t, a2, a_made), Some(e)),
                Ok((b2, b_made)) => {
                    let (u, problem) = go(t, a2, b2);
                    (let_go(let_go(u, b2, b_made), a2, a_made), problem)
                },
            }
        },
    }
}

/// Effect of [`gemm_train`].
pub open spec fn gemm_train_step(
    rt: RuntimeState,
    a: Operand,
    b: Operand,
    c: Operand,
    backend: GemmBackend,
) -> (RuntimeState, Option<Seq<char>>) {
    match first(foreign_problem(rt.id, a), gemm_problem(a, b, c, Layout::NN, true)) {
        Some(e) => (rt, Some(e)),
        None => if wants_bf16(rt, backend) {
            with_bf16(
                rt,
                a,
                b,
                |s: RuntimeState, x: Operand, y: Operand| gemm_step(s, x, y, c, backend),
            )
        } else {
            gemm_step(rt, a, b, c, backend)
        },
    }
}

/// [`gemm`] under the runtime's precision policy: bf16 kernels where it asks for
/// them, with f32 operands cast on the way.
pub fn gemm_train(rt: &mut GpuRuntime, a: &Tensor, b: &Tensor, c: &Tensor, backend: GemmBackend) -> (r:
    Result<(), String>)
    requires
        old(rt).inv(),
    ensures
        final(rt).inv(),
        ({
            let (s, problem) = gemm_train_step(
                old(rt)@,
                operand(*a),
                operand(*b),
                operand(*c),
                backend,
            );
            final(rt)@ == s && reports(r, problem)
        }),
{
    let id: u64 = rt.id();
    require_own(id, a)?;
    validate_gemm(a, b, c, Layout::NN, true)?;
    if use_bf16_gemm(rt, backend) {
        let a_made = ensure_bf16(rt, a)?;
        let b_made = match ensure_bf16(rt, b) {
            Ok(t) => t,
            Err(e) => {
                release(rt, a_made);
                return Err(e);
            },
        };
        let a_bf = choose_cast(&a_made, a);
        let b_bf = choose_cast(&b_made, b);
        let r = gemm(rt, a_bf, b_bf, c, backend);
        release(rt, b_made);
        release(rt, a_made);
        return r;
    }
    gemm_f32(rt, a, b, c, backend)
}

/// [`gemm_train`], by the name of the automatic path.
pub fn gemm_auto(rt: &mut GpuRuntime, a: &Tensor, b: &Tensor, c: &Tensor, backend: GemmBackend) -> (r:
    Result<(), String>)
    requires
        old(rt).inv(),
    ensures
        final(rt).inv(),
        ({
            let (s, problem) = gemm_train_step(
                old(rt)@,
                operand(*a),
                operand(*b),
                operand(*c),
                backend,
            );
            final(rt)@ == s && reports(r, problem)
        }),
{
    gemm_train(rt, a, b, c, backend)
}

// -------------------------------------------------------------- batched ----

/// Elements between consecutive batch elements; zero shares one matrix.
#[derive(Clone, Copy, Debug, PartialEq, Eq, Structural)]
pub struct BatchStrides {
    /// Between consecutive A matrices.
    pub a: usize,
    /// Between consecutive B matrices.
    pub b: usize,
    /// Between consecutive C matrices.
    pub c: usize,
}

impl BatchStrides {
    /// Contiguous batches of all three operands.
    pub fn contiguous(m: usize, n: usize, k: usize) -> (r: BatchStrides)
        requires
            m * k <= usize::MAX,
            k * n <= usize::MAX,
            m * n <= usize::MAX,
        ensures
            r.a == m * k,
            r.b == k * n,
            r.c == m * n,
    {
        BatchStrides { a: m * k, b: k * n, c: m * n }
    }

    /// Contiguous A and C against one shared B.
    pub fn shared_b(m: usize, n: usize, k: usize) -> (r: BatchStrides)
        requires
            m * k <= usize::MAX,
            m * n <= usize::MAX,
        ensures
            r.a == m * k,
            r.b == 0,
            r.c == m * n,
    {
        BatchStrides { a: m * k, b: 0, c: m * n }
    }
}

/// Shape of a batched multiplication: one matrix's extents, how many there are,
/// and how to step between them.
#[derive(Clone, Copy, Debug, PartialEq, Eq, Structural)]
pub struct BatchedGemm {
    /// Rows of one A, and of one C.
    pub m: usize,
    /// Columns of one B, and of one C.
    pub n: usize,
    /// The contracted dimension.
    pub k: usize,
    /// How many matrices.
    pub batch: usize,
    /// Element steps between consecutive matrices.
    pub strides: BatchStrides,
}

/// Elements an operand has to hold: the last batch element ends there.
pub open spec fn batch_need(one: int, stride: usize, batch: usize) -> int {
    stride * (batch - 1) + one
}

/// Where one operand cannot serve the batch.
pub open spec fn batch_extent_problem(
    t: Operand,
    one: int,
    stride: usize,
    batch: usize,
    what: Seq<char>,
) -> Option<Seq<char>> {
    first(
        unless(
            one <= usize::MAX && batch_need(one, stride, batch) <= usize::MAX,
            "batched GEMM: "@ + what + " extent overflows usize"@,
        ),
        first(
            unless(
                t.count() >= batch_need(one, stride, batch),
                "batched GEMM: "@ + what + " holds "@ + decimal(t.count() as nat)
                    + " elements but batch "@ + decimal(batch as nat) + " at stride "@ + decimal(
                    stride as nat,
                ) + " reaches "@ + decimal(batch_need(one, stride, batch) as nat),
            ),
            unless(
                stride <= u32::MAX,
                "batched GEMM: "@ + what + " stride exceeds uint indexing"@,
            ),
        ),
    )
}

fn require_batch_extent(
    t: &Tensor,
    rows: usize,
    cols: usize,
    stride: usize,
    batch: usize,
    what: &str,
) -> (r: Result<(), String>)
    requires
        t.valid(),
        batch > 0,
    ensures
        reports(r, batch_extent_problem(operand(*t), rows * cols, stride, batch, what@)),
{
    proof {
        crate::tensor::lemma_span(*t);
        vstd::arithmetic::mul::lemma_mul_nonnegative(stride as int, batch - 1);
        vstd::arithmetic::mul::lemma_mul_nonnegative(rows as int, cols as int);
    }
    let need: Option<usize> = match rows.checked_mul(cols) {
        None => None,
        Some(one) => match stride.checked_mul(batch - 1) {
            None => None,
            Some(off) => off.checked_add(one),
        },
    };
    let need: usize = match need {
        Some(n) => n,
        None => {
            return Err(
                Msg::new("batched GEMM: ").text(what).text(" extent overflows usize").done(),
            );
        },
    };
    let count: usize = t.numel();
    if count < need {
        return Err(
            Msg::new("batched GEMM: ").text(what).text(" holds ").num(count).text(
                " elements but batch ",
            ).num(batch).text(" at stride ").num(stride).text(" reaches ").num(need).done(),
        );
    }
    if stride > u32::MAX as usize {
        return Err(
            Msg::new("batched GEMM: ").text(what).text(" stride exceeds uint indexing").done(),
        );
    }
    Ok(())
}

/// Where one operand of a batch is malformed.
pub open spec fn batch_operand_problem(t: Operand) -> Option<Seq<char>> {
    first(
        t.problem(),
        unless(t.count() <= i32::MAX, "batched GEMM exceeds signed 32-bit kernel indexing"@),
    )
}

fn require_batch_operand(t: &Tensor) -> (r: Result<(), String>)
    ensures
        reports(r, batch_operand_problem(operand(*t))),
{
    t.validate()?;
    proof {
        crate::tensor::lemma_span(*t);
    }
    if t.numel() > i32::MAX as usize {
        return Err(owned("batched GEMM exceeds signed 32-bit kernel indexing"));
    }
    Ok(())
}

/// The cooperative kernels can multiply the operands.
pub open spec fn coop_ready(rt: RuntimeState, a: Operand, b: Operand, backend: GemmBackend) -> bool {
    backend == GemmBackend::TensorOps && (both(a, b, DType::BF16) || both(a, b, DType::F16)
        || wants_relaxed(rt, backend))
}

fn is_coop_ready(rt: &GpuRuntime, a: &Tensor, b: &Tensor, backend: GemmBackend) -> (r: bool)
    ensures
        r == coop_ready(rt@, operand(*a), operand(*b), backend),
{
    backend == GemmBackend::TensorOps && ((a.dtype == DType::BF16 && b.dtype == DType::BF16) || (
    a.dtype == DType::F16 && b.dtype == DType::F16) || use_relaxed_f32(rt, backend))
}

/// What refuses a nonempty batch.
pub open spec fn batch_problem(
    rt: RuntimeState,
    a: Operand,
    b: Operand,
    c: Operand,
    backend: GemmBackend,
    spec: BatchedGemm,
) -> Option<Seq<char>> {
    first(
        foreign_problem(rt.id, a),
        first(
            unless(
                spec.m != 0 && spec.n != 0 && spec.k != 0,
                "batched GEMM requires nonzero m, n and k"@,
            ),
            first(
                batch_operand_problem(a),
                first(
                    batch_operand_problem(b),
                    first(
                        batch_operand_problem(c),
                        first(
                            unless(
                                a.runtime == b.runtime && a.runtime == c.runtime,
                                "batched GEMM tensors must belong to the same runtime"@,
                            ),
                            first(
                                unless(
                                    c.dtype == DType::F32,
                                    "batched GEMM writes f32 output"@,
                                ),
                                first(
                                    unless(
                                        a.dtype == b.dtype,
                                        "GEMM requires matching operand dtypes"@,
                                    ),
                                    first(
                                        unless(
                                            coop_ready(rt, a, b, backend),
                                            "batched GEMM needs the cooperative-destination path: bf16 or f16 operands, or f32 with relaxed precision, on the TensorOps backend"@,
                                        ),
                                        batch_extents_problem(a, b, c, spec),
                                    ),
                                ),
                            ),
                        ),
                    ),
                ),
            ),
        ),
    )
}

/// Where some operand cannot serve the batch.
pub open spec fn batch_extents_problem(a: Operand, b: Operand, c: Operand, spec: BatchedGemm) -> Option<
    Seq<char>,
> {
    first(
        batch_extent_problem(a, spec.m * spec.k, spec.strides.a, spec.batch, "A"@),
        first(
            batch_extent_problem(b, spec.k * spec.n, spec.strides.b, spec.batch, "B"@),
            batch_extent_problem(c, spec.m * spec.n, spec.strides.c, spec.batch, "C"@),
        ),
    )
}

/// Every matrix of an accepted batch lies inside its operand.
pub proof fn law_batch_stays_inside(
    t: Operand,
    one: int,
    stride: usize,
    batch: usize,
    what: Seq<char>,
    i: int,
)
    requires
        batch_extent_problem(t, one, stride, batch, what) is None,
        0 <= i < batch,
    ensures
        stride * i + one <= t.count(),
{
    assert(stride * i <= stride * (batch - 1)) by (nonlinear_arith)
        requires
            0 <= i <= batch - 1,
            stride >= 0,
    ;
}

/// Kernel of a batch.
pub open spec fn batched_kernel(elem: CoopElem) -> Seq<char> {
    match elem {
        CoopElem::Bf16 => "matmul2d_tensorops_bf16_f32_batched"@,
        CoopElem::F16 => "matmul2d_tensorops_f16_f32_batched"@,
        CoopElem::RelaxedF32 => "matmul2d_tensorops_f32_relaxed_batched"@,
    }
}

/// Stride binds of a batch.
pub open spec fn stride_binds(s: BatchStrides) -> Seq<Bind> {
    seq![word_at(s.a as u32, 8), word_at(s.b as u32, 9), word_at(s.c as u32, 10)]
}

/// Effect of [`gemm_batched`]. A batch of one is a plain multiplication.
pub open spec fn gemm_batched_step(
    rt: RuntimeState,
    a: Operand,
    b: Operand,
    c: Operand,
    backend: GemmBackend,
    spec: BatchedGemm,
) -> (RuntimeState, Option<Seq<char>>) {
    if spec.batch == 0 {
        (rt, None)
    } else {
        match batch_problem(rt, a, b, c, backend, spec) {
            Some(e) => (rt, Some(e)),
            None => if spec.batch == 1 {
                coop_step(rt, a, b, c, spec.m, spec.n, spec.k)
            } else {
                tiled_step(
                    rt,
                    batched_kernel(elem_of(a, b)),
                    a,
                    b,
                    c,
                    spec.m,
                    spec.n,
                    spec.k,
                    TileGeom::Coop,
                    stride_binds(spec.strides),
                    spec.batch,
                )
            },
        }
    }
}

/// `C[i] = A[i] @ B[i]` for every matrix of the batch, in one dispatch. The
/// tensors point at the first matrix; the last one has to fit each operand. An
/// empty batch is a clean no-op.
pub fn gemm_batched(
    rt: &mut GpuRuntime,
    a: &Tensor,
    b: &Tensor,
    c: &Tensor,
    backend: GemmBackend,
    spec: BatchedGemm,
) -> (r: Result<(), String>)
    requires
        old(rt).inv(),
    ensures
        final(rt).inv(),
        ({
            let (s, problem) = gemm_batched_step(
                old(rt)@,
                operand(*a),
                operand(*b),
                operand(*c),
                backend,
                spec,
            );
            final(rt)@ == s && reports(r, problem)
        }),
        r is Ok && spec.batch > 0 && in_view(old(rt)@, final(rt)@) ==> batched_seen(
            old(rt)@,
            final(rt)@,
            operand(*a),
            operand(*b),
            operand(*c),
            spec,
        ),
{
    broadcast use law_batched;

    if spec.batch == 0 {
        return Ok(());
    }
    let id: u64 = rt.id();
    require_own(id, a)?;
    if spec.m == 0 || spec.n == 0 || spec.k == 0 {
        return Err(owned("batched GEMM requires nonzero m, n and k"));
    }
    require_batch_operand(a)?;
    require_batch_operand(b)?;
    require_batch_operand(c)?;
    if a.runtime != b.runtime || a.runtime != c.runtime {
        return Err(owned("batched GEMM tensors must belong to the same runtime"));
    }
    if c.dtype != DType::F32 {
        return Err(owned("batched GEMM writes f32 output"));
    }
    if a.dtype != b.dtype {
        return Err(owned("GEMM requires matching operand dtypes"));
    }
    if !is_coop_ready(rt, a, b, backend) {
        return Err(
            owned(
                "batched GEMM needs the cooperative-destination path: bf16 or f16 operands, or f32 with relaxed precision, on the TensorOps backend",
            ),
        );
    }
    require_batch_extent(a, spec.m, spec.k, spec.strides.a, spec.batch, "A")?;
    require_batch_extent(b, spec.k, spec.n, spec.strides.b, spec.batch, "B")?;
    require_batch_extent(c, spec.m, spec.n, spec.strides.c, spec.batch, "C")?;
    if spec.batch == 1 {
        return launch_coop(rt, a, b, c, spec.m, spec.n, spec.k);
    }
    let kernel = match coop_elem(a, b) {
        CoopElem::Bf16 => "matmul2d_tensorops_bf16_f32_batched",
        CoopElem::F16 => "matmul2d_tensorops_f16_f32_batched",
        CoopElem::RelaxedF32 => "matmul2d_tensorops_f32_relaxed_batched",
    };
    let extra = [
        word(spec.strides.a as u32, 8),
        word(spec.strides.b as u32, 9),
        word(spec.strides.c as u32, 10),
    ];
    assert(extra@ =~= stride_binds(spec.strides));
    launch_tiled(
        rt,
        kernel,
        a,
        b,
        c,
        spec.m,
        spec.n,
        spec.k,
        TileGeom::Coop,
        &extra,
        spec.batch,
    )
}

// ------------------------------------------------------------- epilogue ----

/// Activation fused into a multiplication.
#[derive(Clone, Copy, Debug, PartialEq, Eq, Structural)]
pub enum Activation {
    /// No activation.
    Identity,
    /// `max(x, 0)`.
    Relu,
    /// The tanh form of GELU.
    GeluTanh,
    /// `x * sigmoid(x)`.
    Silu,
}

impl Default for Activation {
    fn default() -> (r: Activation)
        ensures
            r == Activation::Identity,
    {
        Activation::Identity
    }
}

impl Activation {
    /// The word the kernels know the activation by.
    pub open spec fn number(self) -> u32 {
        match self {
            Activation::Identity => 0,
            Activation::Relu => 1,
            Activation::GeluTanh => 2,
            Activation::Silu => 3,
        }
    }

    /// The word the kernels know the activation by.
    pub fn code(self) -> (r: u32)
        ensures
            r == self.number(),
    {
        match self {
            Activation::Identity => 0,
            Activation::Relu => 1,
            Activation::GeluTanh => 2,
            Activation::Silu => 3,
        }
    }
}

/// Bit pattern of the float one.
pub const ONE_F32: u32 = 0x3f80_0000;

/// What a fused epilogue applies before C is stored:
/// `C = activation(alpha * (A @ B) + beta * C + bias)`. The scales are floats'
/// bit patterns; the bias holds one float per column.
pub struct Epilogue<'a> {
    /// Scale on the product.
    pub alpha: u32,
    /// Scale on what C held; zero leaves it unread.
    pub beta: u32,
    /// Per-column bias.
    pub bias: Option<&'a Tensor>,
    /// Applied last.
    pub activation: Activation,
}

impl Default for Epilogue<'_> {
    /// The identity.
    fn default() -> (r: Self)
        ensures
            r.identity(),
            r.alpha == ONE_F32,
            r.beta == 0,
    {
        Epilogue { alpha: ONE_F32, beta: 0, bias: None, activation: Activation::Identity }
    }
}

impl Epilogue<'_> {
    /// The epilogue changes nothing: one times the product, plus zero of
    /// either sign.
    pub open spec fn identity(&self) -> bool {
        self.alpha == ONE_F32 && (self.beta == 0 || self.beta == 0x8000_0000) && self.bias is None
            && self.activation == Activation::Identity
    }

    /// The epilogue changes nothing.
    pub fn is_identity(&self) -> (r: bool)
        ensures
            r == self.identity(),
    {
        self.alpha == ONE_F32 && (self.beta == 0 || self.beta == 0x8000_0000)
            && self.bias.is_none() && self.activation == Activation::Identity
    }
}

/// A bias as data.
pub open spec fn bias_of(bias: Option<&Tensor>) -> Option<Operand> {
    match bias {
        Some(t) => Some(operand(*t)),
        None => None,
    }
}

/// A scale in a message: the notation of one that is not finite, the bit
/// pattern of one that is.
pub open spec fn scale_text(bits: u32) -> Seq<char> {
    if finite(bits) {
        "bits "@ + decimal(bits as nat)
    } else {
        ""@ + nonfinite_text(bits)
    }
}

fn scale_str(bits: u32) -> (r: String)
    ensures
        r@ == scale_text(bits),
{
    if is_finite(bits) {
        Msg::new("bits ").num(bits as usize).done()
    } else {
        Msg::new("").text(nonfinite_str(bits)).done()
    }
}

/// Where a bias does not suit.
pub open spec fn bias_problem(rt: u64, bias: Option<Operand>, n: usize) -> Option<Seq<char>> {
    match bias {
        None => None,
        Some(t) => first(
            t.problem(),
            first(
                unless(t.dtype == DType::F32, "GEMM epilogue: bias must be f32"@),
                first(
                    unless(t.runtime == rt, "GEMM epilogue: bias belongs to a different runtime"@),
                    unless(
                        t.count() >= n,
                        "GEMM epilogue: bias is per-column and must hold at least N = "@ + decimal(
                            n as nat,
                        ) + "                  elements, got "@ + decimal(t.count() as nat),
                    ),
                ),
            ),
        ),
    }
}

fn require_bias(rt: u64, bias: &Option<&Tensor>, n: usize) -> (r: Result<(), String>)
    ensures
        reports(r, bias_problem(rt, bias_of(*bias), n)),
{
    match bias {
        None => Ok(()),
        Some(t) => {
            t.validate()?;
            proof {
                crate::tensor::lemma_span(**t);
            }
            if t.dtype != DType::F32 {
                return Err(owned("GEMM epilogue: bias must be f32"));
            }
            if t.runtime != rt {
                return Err(owned("GEMM epilogue: bias belongs to a different runtime"));
            }
            let count: usize = t.numel();
            if count < n {
                return Err(
                    Msg::new("GEMM epilogue: bias is per-column and must hold at least N = ").num(
                        n,
                    ).text("                  elements, got ").num(count).done(),
                );
            }
            Ok(())
        },
    }
}

/// What refuses a fused multiplication.
pub open spec fn epilogue_problem(
    rt: RuntimeState,
    a: Operand,
    b: Operand,
    c: Operand,
    backend: GemmBackend,
    alpha: u32,
    beta: u32,
    bias: Option<Operand>,
) -> Option<Seq<char>> {
    let (m, n, k, k2) = gemm_extents(a, b, Layout::NN);
    first(
        foreign_problem(rt.id, a),
        first(
            gemm_problem(a, b, c, Layout::NN, true),
            first(
                unless(
                    finite(alpha) && finite(beta),
                    "GEMM epilogue: alpha and beta must be finite, got alpha="@ + scale_text(alpha)
                        + " beta="@ + scale_text(beta),
                ),
                first(
                    unless(a.dtype == b.dtype, "GEMM requires matching operand dtypes"@),
                    first(
                        unless(
                            coop_ready(rt, a, b, backend),
                            "GEMM epilogue needs the cooperative-destination path: bf16 operands, or f32              with PrecisionMode::Relaxed, on the TensorOps backend. The exact-f32 and              simdgroup kernels write C straight from the matmul with no register              accumulator to fuse into, so there is nothing here to make faster"@,
                        ),
                        bias_problem(rt.id, bias, n),
                    ),
                ),
            ),
        ),
    )
}

/// Kernel of a fused multiplication.
pub open spec fn epilogue_kernel(elem: CoopElem) -> Seq<char> {
    match elem {
        CoopElem::Bf16 => "matmul2d_tensorops_bf16_f32_epi"@,
        CoopElem::F16 => "matmul2d_tensorops_f16_f32_epi"@,
        CoopElem::RelaxedF32 => "matmul2d_tensorops_f32_relaxed_epi"@,
    }
}

/// Binds of an epilogue. Without a bias its slot is filled with C, which the
/// kernel then leaves unread.
pub open spec fn epilogue_binds(
    c: Operand,
    alpha: u32,
    beta: u32,
    bias: Option<Operand>,
    activation: Activation,
) -> Seq<Bind> {
    seq![
        bare(
            match bias {
                Some(t) => t,
                None => c,
            },
            8,
        ),
        float_at(alpha, 9),
        float_at(beta, 10),
        word_at(activation.number(), 11),
        word_at(flag(bias is Some), 12),
    ]
}

/// Effect of [`gemm_epilogue`]. The identity is a plain multiplication.
pub open spec fn gemm_epilogue_step(
    rt: RuntimeState,
    a: Operand,
    b: Operand,
    c: Operand,
    backend: GemmBackend,
    epi: Epilogue,
) -> (RuntimeState, Option<Seq<char>>) {
    let (m, n, k, k2) = gemm_extents(a, b, Layout::NN);
    let bias = bias_of(epi.bias);
    if epi.identity() {
        gemm_step(rt, a, b, c, backend)
    } else {
        match epilogue_problem(rt, a, b, c, backend, epi.alpha, epi.beta, bias) {
            Some(e) => (rt, Some(e)),
            None => tiled_step(
                rt,
                epilogue_kernel(elem_of(a, b)),
                a,
                b,
                c,
                m,
                n,
                k,
                TileGeom::Coop,
                epilogue_binds(c, epi.alpha, epi.beta, bias, epi.activation),
                1,
            ),
        }
    }
}

/// `C = activation(alpha * (A @ B) + beta * C + bias)`, in one dispatch. Only
/// the cooperative kernels hold the accumulator long enough to fuse into, so
/// other paths are refused. The identity epilogue is a plain [`gemm`].
pub fn gemm_epilogue(
    rt: &mut GpuRuntime,
    a: &Tensor,
    b: &Tensor,
    c: &Tensor,
    backend: GemmBackend,
    epi: Epilogue<'_>,
) -> (r: Result<(), String>)
    requires
        old(rt).inv(),
    ensures
        final(rt).inv(),
        ({
            let (s, problem) = gemm_epilogue_step(
                old(rt)@,
                operand(*a),
                operand(*b),
                operand(*c),
                backend,
                epi,
            );
            final(rt)@ == s && reports(r, problem)
        }),
        r is Ok && !epi.identity() && in_view(old(rt)@, final(rt)@) ==> epilogue_seen(
            old(rt)@,
            final(rt)@,
            operand(*a),
            operand(*b),
            operand(*c),
            epi,
        ),
{
    broadcast use law_epilogue;

    if epi.is_identity() {
        return gemm(rt, a, b, c, backend);
    }
    let id: u64 = rt.id();
    require_own(id, a)?;
    let (m, n, k): (usize, usize, usize) = validate_gemm(a, b, c, Layout::NN, true)?;
    if !is_finite(epi.alpha) || !is_finite(epi.beta) {
        return Err(
            Msg::new("GEMM epilogue: alpha and beta must be finite, got alpha=").text(
                scale_str(epi.alpha).as_str(),
            ).text(" beta=").text(scale_str(epi.beta).as_str()).done(),
        );
    }
    if a.dtype != b.dtype {
        return Err(owned("GEMM requires matching operand dtypes"));
    }
    if !is_coop_ready(rt, a, b, backend) {
        return Err(
            owned(
                "GEMM epilogue needs the cooperative-destination path: bf16 operands, or f32              with PrecisionMode::Relaxed, on the TensorOps backend. The exact-f32 and              simdgroup kernels write C straight from the matmul with no register              accumulator to fuse into, so there is nothing here to make faster",
            ),
        );
    }
    require_bias(id, &epi.bias, n)?;
    let kernel = match coop_elem(a, b) {
        CoopElem::Bf16 => "matmul2d_tensorops_bf16_f32_epi",
        CoopElem::F16 => "matmul2d_tensorops_f16_f32_epi",
        CoopElem::RelaxedF32 => "matmul2d_tensorops_f32_relaxed_epi",
    };
    let slot = match epi.bias {
        Some(t) => bare_bind(t, 8),
        None => bare_bind(c, 8),
    };
    let extra = [
        slot,
        float(epi.alpha, 9),
        float(epi.beta, 10),
        word(epi.activation.code(), 11),
        word(flag_word(epi.bias.is_some()), 12),
    ];
    assert(extra@ =~= epilogue_binds(
        operand(*c),
        epi.alpha,
        epi.beta,
        bias_of(epi.bias),
        epi.activation,
    ));
    launch_tiled(rt, kernel, a, b, c, m, n, k, TileGeom::Coop, &extra, 1)
}

/// A batch of one encodes exactly what the plain multiplication of the same
/// tensors does, on the cooperative path.
pub proof fn law_batch_of_one_is_plain(
    rt: RuntimeState,
    a: Operand,
    b: Operand,
    c: Operand,
    backend: GemmBackend,
    strides: BatchStrides,
)
    requires
        gemm_problem(a, b, c, Layout::NN, true) is None,
        a.runtime == rt.id,
        a.dtype == b.dtype,
        coop_ready(rt, a, b, backend),
        strides.a <= u32::MAX,
        strides.b <= u32::MAX,
        strides.c <= u32::MAX,
    ensures
        ({
            let (m, n, k, k2) = gemm_extents(a, b, Layout::NN);
            gemm_batched_step(
                rt,
                a,
                b,
                c,
                backend,
                (BatchedGemm { m, n, k, batch: 1, strides }),
            ) == gemm_step(rt, a, b, c, backend)
        }),
{
    let (m, n, k, k2) = gemm_extents(a, b, Layout::NN);
    crate::gemm::operand::law_accepted_extents_match(a, b, c, Layout::NN, true);
    let spec = BatchedGemm { m, n, k, batch: 1, strides };
    assert(strides.a * (spec.batch - 1) == 0) by (nonlinear_arith)
        requires
            spec.batch == 1,
    ;
    assert(strides.b * (spec.batch - 1) == 0) by (nonlinear_arith)
        requires
            spec.batch == 1,
    ;
    assert(strides.c * (spec.batch - 1) == 0) by (nonlinear_arith)
        requires
            spec.batch == 1,
    ;
    assert(k * n == n * k) by (nonlinear_arith);
    assert(batch_problem(rt, a, b, c, backend, spec) is None);
}

} // verus!
