//! Operands and their validation, and the choice of kernel family.

use vstd::prelude::*;

use crate::runtime::{has_tensorops_of, GpuRuntime};
use crate::sizes::{ints, product, product_to};
use crate::state::{PrecisionMode, RuntimeState};
use crate::tensor::{shape_problem, DType, Storage, Tensor};
use crate::text::{first, owned, reports, unless};

verus! {

/// Which kernel family multiplies.
#[derive(Clone, Copy, Debug, PartialEq, Eq, Structural)]
pub enum GemmBackend {
    /// Cooperative TensorOps kernels.
    TensorOps,
    /// Hand-tiled portable path.
    Simdgroup,
}

impl GemmBackend {
    /// The family's exact f32 kernel.
    pub open spec fn kernel_f32(self) -> Seq<char> {
        match self {
            GemmBackend::TensorOps => "matmul2d_tensorops_f32"@,
            GemmBackend::Simdgroup => "matmul_simdgroup_f32"@,
        }
    }

    /// The family's exact f32 kernel.
    pub fn kernel_name_f32(self) -> (r: &'static str)
        ensures
            r@ == self.kernel_f32(),
    {
        match self {
            GemmBackend::TensorOps => "matmul2d_tensorops_f32",
            GemmBackend::Simdgroup => "matmul_simdgroup_f32",
        }
    }
}

/// TensorOps where the primary library holds it, simdgroup elsewhere.
pub fn select_backend(rt: &GpuRuntime) -> (r: GemmBackend)
    ensures
        r == if has_tensorops_of(rt@.kernels) {
            GemmBackend::TensorOps
        } else {
            GemmBackend::Simdgroup
        },
{
    if rt.has_tensorops() {
        GemmBackend::TensorOps
    } else {
        GemmBackend::Simdgroup
    }
}

/// The runtime's policy asks for bf16 kernels and has them.
pub open spec fn wants_bf16(rt: RuntimeState, backend: GemmBackend) -> bool {
    rt.settings.precision == PrecisionMode::Bf16 && backend == GemmBackend::TensorOps
        && has_tensorops_of(rt.kernels)
}

pub(crate) fn use_bf16_gemm(rt: &GpuRuntime, backend: GemmBackend) -> (r: bool)
    ensures
        r == wants_bf16(rt@, backend),
{
    rt.precision() == PrecisionMode::Bf16 && backend == GemmBackend::TensorOps
        && rt.has_tensorops()
}

/// The runtime's policy asks for relaxed f32 kernels and has them.
pub open spec fn wants_relaxed(rt: RuntimeState, backend: GemmBackend) -> bool {
    rt.settings.relaxed_precision && rt.settings.precision == PrecisionMode::F32 && backend
        == GemmBackend::TensorOps && has_tensorops_of(rt.kernels)
}

pub(crate) fn use_relaxed_f32(rt: &GpuRuntime, backend: GemmBackend) -> (r: bool)
    ensures
        r == wants_relaxed(rt@, backend),
{
    rt.relaxed_precision() && rt.precision() == PrecisionMode::F32 && backend
        == GemmBackend::TensorOps && rt.has_tensorops()
}

// ------------------------------------------------------------- operands ----

/// A tensor as data.
#[verifier::ext_equal]
pub struct Operand {
    pub buffer: Storage,
    pub shape: Seq<usize>,
    pub dtype: DType,
    pub byte_offset: usize,
    pub runtime: u64,
}

/// A tensor as data.
pub open spec fn operand(t: Tensor) -> Operand {
    Operand {
        buffer: t.buffer@,
        shape: t.shape@,
        dtype: t.dtype,
        byte_offset: t.byte_offset,
        runtime: t.runtime,
    }
}

/// The tensor over all of a fresh buffer.
pub open spec fn whole(buffer: Storage, shape: Seq<usize>, dtype: DType, runtime: u64) -> Operand {
    Operand { buffer, shape, dtype, byte_offset: 0, runtime }
}

impl Operand {
    /// Elements.
    pub open spec fn count(self) -> int {
        product(ints(self.shape))
    }

    /// Bytes.
    pub open spec fn span(self) -> int {
        self.count() * self.dtype.bytes()
    }

    /// What is wrong with the metadata.
    pub open spec fn problem(self) -> Option<Seq<char>> {
        first(
            shape_problem(self.shape, self.dtype.bytes()),
            first(
                unless(
                    self.byte_offset as int % self.dtype.bytes() == 0 && self.byte_offset
                        + self.span() <= self.buffer.nbytes,
                    "tensor view is misaligned or out of bounds"@,
                ),
                unless(
                    self.buffer.runtime == self.runtime,
                    "tensor buffer belongs to a different runtime"@,
                ),
            ),
        )
    }

    /// The two views share at least one byte of one allocation.
    pub open spec fn meets(self, other: Operand) -> bool {
        &&& self.buffer.slab.id == other.buffer.slab.id
        &&& self.byte_offset < other.byte_offset + other.span()
        &&& other.byte_offset < self.byte_offset + self.span()
    }
}

/// Where a tensor is not the runtime's own.
pub open spec fn foreign_problem(rt: u64, t: Operand) -> Option<Seq<char>> {
    unless(t.runtime == rt, "tensor belongs to another runtime"@)
}

/// Refuses a tensor of another runtime.
pub fn require_own(rt: u64, t: &Tensor) -> (r: Result<(), String>)
    ensures
        reports(r, foreign_problem(rt, operand(*t))),
{
    if t.runtime != rt {
        return Err(owned("tensor belongs to another runtime"));
    }
    Ok(())
}

// ----------------------------------------------------------- validation ----

/// Which operand is stored transposed.
#[derive(Clone, Copy, Debug, PartialEq, Eq, Structural)]
pub enum Layout {
    NN,
    TN,
    NT,
}

/// Where one operand is not a nonempty matrix that the kernels can index.
pub open spec fn matrix_problem(t: Operand) -> Option<Seq<char>> {
    first(
        t.problem(),
        first(
            unless(
                t.shape.len() == 2 && !t.shape.contains(0),
                "GEMM requires nonempty rank-2 tensors"@,
            ),
            unless(
                t.count() <= i32::MAX,
                "GEMM exceeds signed 32-bit kernel indexing"@,
            ),
        ),
    )
}

fn require_matrix(t: &Tensor) -> (r: Result<(), String>)
    ensures
        reports(r, matrix_problem(operand(*t))),
{
    t.validate()?;
    proof {
        crate::tensor::lemma_span(*t);
    }
    if t.shape.len() != 2 {
        return Err(owned("GEMM requires nonempty rank-2 tensors"));
    }
    if t.shape[0] == 0 || t.shape[1] == 0 {
        proof {
            if t.shape@[0] == 0 {
                assert(t.shape@.contains(0));
            } else {
                assert(t.shape@[1] == 0);
                assert(t.shape@.contains(0));
            }
        }
        return Err(owned("GEMM requires nonempty rank-2 tensors"));
    }
    assert(!t.shape@.contains(0)) by {
        if t.shape@.contains(0) {
            let i = choose|i: int| 0 <= i < t.shape@.len() && t.shape@[i] == 0;
            assert(i == 0 || i == 1);
        }
    }
    if t.numel() > i32::MAX as usize {
        return Err(owned("GEMM exceeds signed 32-bit kernel indexing"));
    }
    Ok(())
}

/// Rows of A, rows of B's counterpart, and the two inner extents.
pub open spec fn gemm_extents(a: Operand, b: Operand, layout: Layout) -> (usize, usize, usize, usize) {
    match layout {
        Layout::NN => (a.shape[0], b.shape[1], a.shape[1], b.shape[0]),
        Layout::TN => (a.shape[1], b.shape[1], a.shape[0], b.shape[0]),
        Layout::NT => (a.shape[0], b.shape[0], a.shape[1], b.shape[1]),
    }
}

/// What refuses a multiplication.
pub open spec fn gemm_problem(
    a: Operand,
    b: Operand,
    c: Operand,
    layout: Layout,
    narrow: bool,
) -> Option<Seq<char>> {
    let (m, n, k, k2) = gemm_extents(a, b, layout);
    first(
        matrix_problem(a),
        first(
            matrix_problem(b),
            first(
                matrix_problem(c),
                first(
                    unless(
                        a.runtime == b.runtime && a.runtime == c.runtime,
                        "GEMM tensors must belong to the same runtime"@,
                    ),
                    first(
                        unless(
                            c.dtype == DType::F32 && (narrow || (a.dtype == DType::F32 && b.dtype
                                == DType::F32)),
                            "GEMM operand dtype does not match the selected precision path"@,
                        ),
                        first(
                            unless(
                                k == k2 && c.shape == seq![m, n],
                                "GEMM inner dimensions or output shape do not match"@,
                            ),
                            unless(
                                !a.meets(c) && !b.meets(c),
                                "GEMM output must not overlap either input"@,
                            ),
                        ),
                    ),
                ),
            ),
        ),
    )
}

/// What a validated multiplication knows of its extents.
pub open spec fn accepted(a: Operand, b: Operand, c: Operand, m: usize, n: usize, k: usize) -> bool {
    &&& 0 < m
    &&& 0 < n
    &&& 0 < k
    &&& m * k == a.count() && m * k <= i32::MAX
    &&& n * k == b.count() && n * k <= i32::MAX
    &&& m * n == c.count() && m * n <= i32::MAX
    &&& m <= i32::MAX
    &&& n <= i32::MAX
    &&& k <= i32::MAX
}

/// A matrix has as many elements as rows times columns.
pub proof fn lemma_matrix_count(shape: Seq<usize>)
    requires
        shape.len() == 2,
    ensures
        product(ints(shape)) == shape[0] * shape[1],
{
    let d = ints(shape);
    assert(product_to(d, 0) == 1);
    assert(product_to(d, 1) == shape[0]);
    assert(product_to(d, 2) == shape[0] * shape[1]);
}

proof fn lemma_positive_factors(x: int, y: int)
    requires
        x > 0,
        y > 0,
    ensures
        x <= x * y,
        y <= x * y,
        x * y == y * x,
{
    assert(x <= x * y && y <= x * y && x * y == y * x) by (nonlinear_arith)
        requires
            x > 0,
            y > 0,
    ;
}

/// An accepted multiplication has nonempty extents that the kernels can index,
/// and its operands have exactly the elements those extents call for.
pub proof fn law_accepted_extents_match(
    a: Operand,
    b: Operand,
    c: Operand,
    layout: Layout,
    narrow: bool,
)
    requires
        gemm_problem(a, b, c, layout, narrow) is None,
    ensures
        ({
            let (m, n, k, k2) = gemm_extents(a, b, layout);
            accepted(a, b, c, m, n, k)
        }),
{
    lemma_matrix_count(a.shape);
    lemma_matrix_count(b.shape);
    lemma_matrix_count(c.shape);
    let (m, n, k, k2) = gemm_extents(a, b, layout);
    assert(a.shape.contains(a.shape[0]) && a.shape.contains(a.shape[1]));
    assert(b.shape.contains(b.shape[0]) && b.shape.contains(b.shape[1]));
    lemma_positive_factors(m as int, k as int);
    lemma_positive_factors(n as int, k as int);
    lemma_positive_factors(m as int, n as int);
}

/// Validates a multiplication and returns its extents: rows, columns and the
/// contracted dimension.
pub fn validate_gemm(a: &Tensor, b: &Tensor, c: &Tensor, layout: Layout, allow_narrow: bool) -> (r:
    Result<(usize, usize, usize), String>)
    ensures
        reports(r, gemm_problem(operand(*a), operand(*b), operand(*c), layout, allow_narrow)),
        r matches Ok(d) ==> {
            let (m, n, k, k2) = gemm_extents(operand(*a), operand(*b), layout);
            &&& d == (m, n, k)
            &&& accepted(operand(*a), operand(*b), operand(*c), m, n, k)
        },
{
    require_matrix(a)?;
    require_matrix(b)?;
    require_matrix(c)?;
    if a.runtime != b.runtime || a.runtime != c.runtime {
        return Err(owned("GEMM tensors must belong to the same runtime"));
    }
    if c.dtype != DType::F32 || (!allow_narrow && (a.dtype != DType::F32 || b.dtype
        != DType::F32)) {
        return Err(owned("GEMM operand dtype does not match the selected precision path"));
    }
    let (m, n, k, k2): (usize, usize, usize, usize) = match layout {
        Layout::NN => (a.shape[0], b.shape[1], a.shape[1], b.shape[0]),
        Layout::TN => (a.shape[1], b.shape[1], a.shape[0], b.shape[0]),
        Layout::NT => (a.shape[0], b.shape[0], a.shape[1], b.shape[1]),
    };
    if k != k2 || c.shape[0] != m || c.shape[1] != n {
        assert(k == k2 && c.shape@ == seq![m, n] ==> c.shape@[0] == m && c.shape@[1] == n);
        return Err(owned("GEMM inner dimensions or output shape do not match"));
    }
    assert(c.shape@ =~= seq![m, n]);
    if a.overlaps(c) || b.overlaps(c) {
        return Err(owned("GEMM output must not overlap either input"));
    }
    proof {
        law_accepted_extents_match(operand(*a), operand(*b), operand(*c), layout, allow_narrow);
    }
    Ok((m, n, k))
}

} // verus!
