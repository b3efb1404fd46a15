//! Quantized weight banks and the shapes they are checked against.

use vstd::prelude::*;

use crate::nn::check::{elems, overflow_message, require, require_problem, BYTE, WORD};
use crate::sizes::{ceil_div, div_ceil};
use crate::tensor::{GpuBuffer, Storage};
use crate::text::{decimal, first, join, reports, unless, Msg};

verus! {

/// Shape of a group-wise quantized weight matrix: each run of `group_size`
/// consecutive weights in a row shares one scale and one zero point (or bias).
#[derive(Clone, Copy, Debug, PartialEq, Eq, Structural)]
pub struct QuantShape {
    /// Output rows.
    pub rows: u32,
    /// Reduction length.
    pub cols: u32,
    /// Weights per quantization group; divides `cols`.
    pub group_size: u32,
}

impl QuantShape {
    /// What is wrong with the grouping.
    pub open spec fn problem(self, what: Seq<char>) -> Option<Seq<char>> {
        first(
            unless(self.group_size != 0, what + ": group_size must be non-zero"@),
            unless(
                self.cols % self.group_size == 0,
                what + ": cols "@ + decimal(self.cols as nat) + " is not a multiple of group_size "@
                    + decimal(self.group_size as nat)
                    + "; the kernels compute `cols / group_size` with integer division and would silently drop the ragged tail group"@,
            ),
        )
    }

    /// Groups in the whole matrix.
    pub open spec fn group_count(self) -> int {
        self.rows * (self.cols / self.group_size)
    }

    /// What is wrong with the number of groups.
    pub open spec fn group_problem(self) -> Option<Seq<char>> {
        first(
            self.problem("QuantShape"@),
            unless(self.group_count() <= usize::MAX, overflow_message("QuantShape groups"@)),
        )
    }

    /// Quantization groups in the whole matrix.
    pub fn groups(&self) -> (r: Result<usize, String>)
        ensures
            reports(r, self.group_problem()),
            r matches Ok(n) ==> n == self.group_count(),
    {
        self.validate("QuantShape")?;
        elems(self.rows, self.cols / self.group_size, "QuantShape groups")
    }

    /// Refuses a shape whose groups do not tile a row.
    pub fn validate(&self, what: &str) -> (r: Result<(), String>)
        ensures
            reports(r, self.problem(what@)),
    {
        if self.group_size == 0 {
            return Err(Msg::new(what).text(": group_size must be non-zero").done());
        }
        if self.cols % self.group_size != 0 {
            return Err(
                Msg::new(what).text(": cols ").num(self.cols as usize).text(
                    " is not a multiple of group_size ",
                ).num(self.group_size as usize).text(
                    "; the kernels compute `cols / group_size` with integer division and would silently drop the ragged tail group",
                ).done(),
            );
        }
        Ok(())
    }
}

/// A shape that passes tiles each row with whole groups.
pub proof fn law_groups_tile_every_row(shape: QuantShape, what: Seq<char>)
    requires
        shape.problem(what) is None,
    ensures
        (shape.cols / shape.group_size) * shape.group_size == shape.cols,
        shape.group_count() * shape.group_size == shape.rows * shape.cols,
{
    let c = shape.cols as int;
    let g = shape.group_size as int;
    let r = shape.rows as int;
    vstd::arithmetic::div_mod::lemma_fundamental_div_mod(c, g);
    assert((c / g) * g == c) by (nonlinear_arith)
        requires
            c == g * (c / g) + c % g,
            c % g == 0,
    ;
    assert((r * (c / g)) * g == r * c) by (nonlinear_arith)
        requires
            (c / g) * g == c,
    ;
}

/// Where a matrix has more weights than a machine word counts.
pub open spec fn weights_problem(shape: QuantShape, what: Seq<char>) -> Option<Seq<char>> {
    unless(shape.rows * shape.cols <= usize::MAX, overflow_message(what))
}

/// Q4 weights with separate f32 scale and zero-point tables: two signed nibbles
/// per byte, low nibble first, `w = scale * (q - zero)`.
#[derive(Clone, Copy, Debug)]
pub struct Q4Bank<'a> {
    /// Packed nibbles, half a byte per weight.
    pub packed: &'a GpuBuffer,
    /// One float per group.
    pub scales: &'a GpuBuffer,
    /// One float per group.
    pub zeros: &'a GpuBuffer,
}

impl View for Q4Bank<'_> {
    type V = Q4BankAt;

    open spec fn view(&self) -> Q4BankAt {
        Q4BankAt {
            packed: self.packed@,
            scales: self.scales@,
            zeros: self.zeros@,
        }
    }
}

impl Q4Bank<'_> {
    /// What the handles name.
    pub fn at(&self) -> (r: Q4BankAt)
        ensures
            r == self@,
    {
        Q4BankAt {
            packed: self.packed.at(),
            scales: self.scales.at(),
            zeros: self.zeros.at(),
        }
    }
}

/// What the buffers of a [`Q4Bank`] name.
#[derive(Clone, Copy, Debug, PartialEq, Eq, Structural)]
pub struct Q4BankAt {
    /// Packed nibbles, half a byte per weight.
    pub packed: Storage,
    /// One float per group.
    pub scales: Storage,
    /// One float per group.
    pub zeros: Storage,
}

impl Q4BankAt {
    /// What refuses the bank for `shape`.
    pub open spec fn problem(self, rt: u64, shape: QuantShape, what: Seq<char>) -> Option<Seq<char>> {
        first(
            shape.problem(what),
            first(
                unless(
                    shape.group_size % 8 == 0,
                    what + ": group_size "@ + decimal(shape.group_size as nat)
                        + " must be a multiple of 8; the kernels peel each group through 4-byte `uint` loads at `packed + row * cols / 2 + g * group_size / 2`, which is aligned for every row and group only when group_size is a multiple of 8"@,
                ),
                first(
                    shape.group_problem(),
                    first(
                        weights_problem(shape, what),
                        first(
                            require_problem(
                                rt,
                                self.packed,
                                ceil_div(shape.rows * shape.cols, 2),
                                1,
                                what + " packed"@,
                            ),
                            first(
                                require_problem(
                                    rt,
                                    self.scales,
                                    shape.group_count(),
                                    4,
                                    what + " scales"@,
                                ),
                                require_problem(
                                    rt,
                                    self.zeros,
                                    shape.group_count(),
                                    4,
                                    what + " zeros"@,
                                ),
                            ),
                        ),
                    ),
                ),
            ),
        )
    }

    /// Refuses a bank that does not back `shape`.
    pub fn validate(&self, rt: u64, shape: &QuantShape, what: &str) -> (r: Result<(), String>)
        ensures
            reports(r, self.problem(rt, *shape, what@)),
    {
        shape.validate(what)?;
        if shape.group_size % 8 != 0 {
            return Err(
                Msg::new(what).text(": group_size ").num(shape.group_size as usize).text(
                    " must be a multiple of 8; the kernels peel each group through 4-byte `uint` loads at `packed + row * cols / 2 + g * group_size / 2`, which is aligned for every row and group only when group_size is a multiple of 8",
                ).done(),
            );
        }
        let groups: usize = shape.groups()?;
        let weights: usize = elems(shape.rows, shape.cols, what)?;
        require(rt, &self.packed, div_ceil(weights, 2), BYTE, join(what, " packed").as_str())?;
        require(rt, &self.scales, groups, WORD, join(what, " scales").as_str())?;
        require(rt, &self.zeros, groups, WORD, join(what, " zeros").as_str())
    }
}

/// MLX-format Q4 weights: packed unsigned nibbles plus interleaved bf16
/// `(scale, bias)` pairs, `w = scale * nibble + bias`.
#[derive(Clone, Copy, Debug)]
pub struct Q4MlxBank<'a> {
    /// Packed nibbles, half a byte per weight.
    pub packed: &'a GpuBuffer,
    /// Interleaved bf16 scale/bias pairs, one per group.
    pub scales_biases: &'a GpuBuffer,
}

impl View for Q4MlxBank<'_> {
    type V = Q4MlxBankAt;

    open spec fn view(&self) -> Q4MlxBankAt {
        Q4MlxBankAt {
            packed: self.packed@,
            scales_biases: self.scales_biases@,
        }
    }
}

impl Q4MlxBank<'_> {
    /// What the handles name.
    pub fn at(&self) -> (r: Q4MlxBankAt)
        ensures
            r == self@,
    {
        Q4MlxBankAt {
            packed: self.packed.at(),
            scales_biases: self.scales_biases.at(),
        }
    }
}

/// What the buffers of a [`Q4MlxBank`] name.
#[derive(Clone, Copy, Debug, PartialEq, Eq, Structural)]
pub struct Q4MlxBankAt {
    /// Packed nibbles, half a byte per weight.
    pub packed: Storage,
    /// One scale/bias pair per group.
    pub scales_biases: Storage,
}

/// Group sizes the MLX kernels are written for.
pub open spec fn mlx_group_size(group_size: u32) -> bool {
    group_size % 32 == 0 && 512u32 % group_size == 0
}

impl Q4MlxBankAt {
    /// What refuses the bank for `shape`.
    pub open spec fn problem(self, rt: u64, shape: QuantShape, what: Seq<char>) -> Option<Seq<char>> {
        first(
            shape.problem(what),
            first(
                unless(
                    mlx_group_size(shape.group_size),
                    what + ": group_size "@ + decimal(shape.group_size as nat)
                        + " is outside the MLX kernel domain {32, 64, 128, 256, 512}; the row kernels peel each group through 16-byte loads and the simdgroup kernels stride their scale pointer by 512 / group_size"@,
                ),
                first(
                    shape.group_problem(),
                    first(
                        weights_problem(shape, what),
                        first(
                            require_problem(
                                rt,
                                self.packed,
                                ceil_div(shape.rows * shape.cols, 2),
                                1,
                                what + " packed"@,
                            ),
                            require_problem(
                                rt,
                                self.scales_biases,
                                shape.group_count(),
                                4,
                                what + " scales_biases (bfloat2 per group)"@,
                            ),
                        ),
                    ),
                ),
            ),
        )
    }

    /// Refuses a bank that does not back `shape`, or a group size outside the
    /// kernels' domain.
    pub fn validate(&self, rt: u64, shape: &QuantShape, what: &str) -> (r: Result<(), String>)
        ensures
            reports(r, self.problem(rt, *shape, what@)),
    {
        shape.validate(what)?;
        if shape.group_size % 32 != 0 || 512 % shape.group_size != 0 {
            return Err(
                Msg::new(what).text(": group_size ").num(shape.group_size as usize).text(
                    " is outside the MLX kernel domain {32, 64, 128, 256, 512}; the row kernels peel each group through 16-byte loads and the simdgroup kernels stride their scale pointer by 512 / group_size",
                ).done(),
            );
        }
        let groups: usize = shape.groups()?;
        let weights: usize = elems(shape.rows, shape.cols, what)?;
        require(rt, &self.packed, div_ceil(weights, 2), BYTE, join(what, " packed").as_str())?;
        require(
            rt,
            &self.scales_biases,
            groups,
            WORD,
            join(what, " scales_biases (bfloat2 per group)").as_str(),
        )
    }
}

/// The MLX group sizes are exactly the five the kernels document.
pub proof fn law_mlx_domain(group_size: u32)
    requires
        group_size != 0,
    ensures
        mlx_group_size(group_size) <==> (group_size == 32 || group_size == 64 || group_size == 128
            || group_size == 256 || group_size == 512),
{
    if mlx_group_size(group_size) {
        let g = group_size as int;
        assert(512int % g == 0);
        assert(g <= 512) by (nonlinear_arith)
            requires
                512int % g == 0,
                g > 0,
        ;
        let k = g / 32;
        assert(g == 32 * k && 1 <= k <= 16);
        assert(512int % 96 != 0 && 512int % 160 != 0 && 512int % 192 != 0 && 512int % 224 != 0
            && 512int % 288 != 0 && 512int % 320 != 0 && 512int % 352 != 0 && 512int % 384 != 0
            && 512int % 416 != 0 && 512int % 448 != 0 && 512int % 480 != 0);
    }
}

/// Output rows a simdgroup-cooperative threadgroup covers.
pub const SIMD_ROWS_PER_TG: usize = 8;

/// Lanes of a simdgroup-cooperative threadgroup.
pub const SIMD_TPTG: usize = 64;

/// Threadgroups for `rows` outputs.
pub open spec fn simd_groups(rows: u32) -> usize {
    ceil_div(rows as int, 8) as usize
}

/// Threadgroups a simdgroup-cooperative GEMV needs for `rows` outputs.
pub fn simd_gemv_threadgroups(rows: u32) -> (r: usize)
    ensures
        r == simd_groups(rows),
        8 * r <= rows + 7,
{
    div_ceil(rows as usize, SIMD_ROWS_PER_TG)
}

/// The groups cover every row, and no group is idle.
pub proof fn law_simd_groups_cover_rows(rows: u32)
    ensures
        simd_groups(rows) * 8 >= rows,
        rows > 0 ==> (simd_groups(rows) - 1) * 8 < rows,
{
    crate::sizes::lemma_ceil_div_covers(rows as int, 8);
}

} // verus!
