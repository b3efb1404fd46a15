//! What the multiplication kernels get from an accepted call: operands, extents,
//! tiles, simdgroups and the numbers of an epilogue.

use vstd::prelude::*;

use crate::device::{size3, Pipeline};
use crate::dispatch::{pair_fn, Bind, PassView};
use crate::gemm::cast::operand_bind;
use crate::gemm::matmul::{
    bias_of, coop_kernel, coop_step, elem_of, epilogue_binds, epilogue_kernel, gemm_batched_step,
    gemm_epilogue_step, gemm_step, simdgroup_kernel, simdgroup_step, stride_binds, Activation,
    BatchedGemm, Epilogue,
};
use crate::gemm::operand::{
    accepted, gemm_extents, law_accepted_extents_match, GemmBackend, Layout, Operand,
};
use crate::gemm::tiles::{
    flags_read, interior_bind, matmul_binds, tile_count, tiled_step, zero_pass, zeroed_step,
    TileGeom,
};
use crate::nn::check::{float_at, word_at};
use crate::seen::{
    carried, carries, carries_all, clear, covers, dispatch, from_slot, has_room, in_view,
    launches, law_pipeline, lemma_carried_joined, lemma_launches_after_quiet, lemma_named_launch,
    lemma_pair_shows, lemma_picked, lemma_quietly_on, lemma_row_covers, lemma_starts_on, picked,
    quietly, ran, rising, starts, steady, Launch,
};
use crate::sizes::ceil_div;
use crate::state::RuntimeState;
use crate::tensor::{DType, Storage};

verus! {

impl Launch {
    /// The kernel gets the first element of an operand in a slot.
    pub open spec fn takes(self, slot: int, t: Operand) -> bool {
        &&& self.scene.slots.contains_key((self.scene.table->0, slot as usize))
        &&& self.at(slot) == t.buffer.slab.address + t.byte_offset
    }

    /// The kernel multiplies A in slot 0 by B in slot 1 into C in slot 2, with the
    /// extents in the next three.
    pub open spec fn multiplies(
        self,
        a: Operand,
        b: Operand,
        c: Operand,
        m: int,
        n: int,
        k: int,
    ) -> bool {
        &&& self.takes(0, a)
        &&& self.takes(1, b)
        &&& self.takes(2, c)
        &&& self.reads(3, m as u32)
        &&& self.reads(4, n as u32)
        &&& self.reads(5, k as u32)
    }

    /// One group for each tile of `rows` by `cols`, whose counts are in the slots
    /// `across` and `across + 1`, and as many simdgroups in a group as given.
    pub open spec fn tiles(
        self,
        m: int,
        n: int,
        rows: int,
        cols: int,
        simdgroups: int,
        across: int,
    ) -> bool {
        let x = self.word(across) as int;
        let y = self.word(across + 1) as int;
        &&& self.reads(across, x as u32)
        &&& self.reads(across + 1, y as u32)
        &&& n <= x * cols
        &&& (x - 1) * cols < n
        &&& m <= y * rows
        &&& (y - 1) * rows < m
        &&& self.groups.width == x * y
        &&& self.groups.depth == 1
        &&& self.has_simdgroups(simdgroups)
    }

    /// Threads of a group divided by the pipeline's execution width.
    pub open spec fn has_simdgroups(self, count: int) -> bool {
        &&& self.threads.width == count * self.width() || count * self.width() > usize::MAX
        &&& self.threads.height == 1
        &&& self.threads.depth == 1
    }
}

/// Rows, columns and simdgroups of a tile.
pub open spec fn tile_shape(tile: TileGeom) -> (int, int, int) {
    match tile {
        TileGeom::F32 => (32, 32, 1),
        TileGeom::SplitBf16 => (64, 32, 4),
        TileGeom::Coop => (128, 64, 4),
        TileGeom::CoopSquare => (64, 64, 4),
    }
}

/// Extents that a kernel can index.
pub open spec fn indexable(m: int, n: int, k: int) -> bool {
    &&& 0 < m <= i32::MAX
    &&& 0 < n <= i32::MAX
    &&& 0 < k <= i32::MAX
    &&& m * n <= i32::MAX
}

pub proof fn lemma_tiles(l: Launch, p: Pipeline, m: usize, n: usize, tile: TileGeom, at: int)
    requires
        0 <= at < 30,
        l.scene.pipeline == Some(p),
        l.groups.width == tile.groups(m, n),
        l.groups.depth == 1,
        l.threads == size3(tile.threads(p), 1, 1),
        l.reads(at, tile.across(n) as u32),
        l.reads(at + 1, tile.down(m) as u32),
        0 < m <= i32::MAX,
        0 < n <= i32::MAX,
        m * n <= i32::MAX,
    ensures
        ({
            let (rows, cols, simdgroups) = tile_shape(tile);
            l.tiles(m as int, n as int, rows, cols, simdgroups, at)
        }),
{
    let (rows, cols, simdgroups) = tile_shape(tile);
    let x = ceil_div(n as int, cols);
    let y = ceil_div(m as int, rows);
    crate::sizes::lemma_ceil_div_covers(n as int, cols);
    crate::sizes::lemma_ceil_div_covers(m as int, rows);
    assert(1 <= x * y <= m * n) by (nonlinear_arith)
        requires
            1 <= x <= n,
            1 <= y <= m,
    ;
    assert(x <= u32::MAX && y <= u32::MAX);
    assert(tile.across(n) as u32 == x);
    assert(tile.down(m) as u32 == y);
    assert(tile_count(x, y) == x * y);
    assert(p.thread_execution_width * simdgroups == simdgroups * p.thread_execution_width)
        by (nonlinear_arith);
}

/// One tiled multiplication that was accepted: operands and extents in slots 0 to
/// 5, the tile counts in 6 and 7, further binds behind them, and a group of the
/// tile's simdgroups for each tile and batch element.
#[verifier::spinoff_prover]
#[verifier::rlimit(40)]
pub proof fn law_tiled(
    rt: RuntimeState,
    kernel: Seq<char>,
    a: Operand,
    b: Operand,
    c: Operand,
    m: usize,
    n: usize,
    k: usize,
    tile: TileGeom,
    extra: Seq<Bind>,
    batch: usize,
)
    requires
        indexable(m as int, n as int, k as int),
        from_slot(extra, 8),
        tiled_step(rt, kernel, a, b, c, m, n, k, tile, extra, batch).1 is None,
        in_view(rt, tiled_step(rt, kernel, a, b, c, m, n, k, tile, extra, batch).0),
    ensures
        ({
            let t = tiled_step(rt, kernel, a, b, c, m, n, k, tile, extra, batch).0;
            let l = dispatch(rt, t);
            let (rows, cols, simdgroups) = tile_shape(tile);
            &&& ran(rt, t, kernel)
            &&& l.multiplies(a, b, c, m as int, n as int, k as int)
            &&& l.tiles(m as int, n as int, rows, cols, simdgroups, 6)
            &&& l.groups.height == batch
            &&& carried(l, extra)
            &&& steady(rt, t)
            &&& starts(rt.ops, t.ops)
        }),
{
    let p = rt.piped(kernel).1->Ok_0;
    let head = matmul_binds(a, b, c, m, n, k, tile);
    lemma_named_launch(
        rt,
        kernel,
        head + extra,
        None,
        size3(tile.groups(m, n), batch, 1),
        size3(tile.threads(p), 1, 1),
    );
    let t = tiled_step(rt, kernel, a, b, c, m, n, k, tile, extra, batch).0;
    let l = dispatch(rt, t);
    reveal_with_fuel(rising, 9);
    lemma_carried_joined(l, head, extra, 8);
    reveal(carried);
    assert(carries(l, head[0]));
    assert(carries(l, head[1]));
    assert(carries(l, head[2]));
    assert(carries(l, head[3]));
    assert(carries(l, head[4]));
    assert(carries(l, head[5]));
    assert(carries(l, head[6]));
    assert(carries(l, head[7]));
    lemma_tiles(l, p, m, n, tile, 6);
}

// --------------------------------------------------- cooperative kernels ---

/// A cooperative multiplication: up to 512 columns the 64 by 64 tile, else the 128
/// by 64 one, four simdgroups each, and the kernel of the operands' type.
pub open spec fn coop_seen(
    before: RuntimeState,
    after: RuntimeState,
    a: Operand,
    b: Operand,
    c: Operand,
    m: int,
    n: int,
    k: int,
) -> bool {
    let l = dispatch(before, after);
    let half = a.dtype == DType::F16 && b.dtype == DType::F16;
    let brain = a.dtype == DType::BF16 && b.dtype == DType::BF16;
    &&& l.multiplies(a, b, c, m, n, k)
    &&& l.groups.height == 1
    &&& if n <= 512 {
        &&& l.tiles(m, n, 64, 64, 4, 6)
        &&& brain ==> ran(before, after, "matmul2d_tensorops_bf16_f32_64x64_sg4"@)
        &&& half ==> ran(before, after, "matmul2d_tensorops_f16_f32_64x64_sg4"@)
        &&& !brain && !half ==> ran(before, after, "matmul2d_tensorops_f32_relaxed_64x64_sg4"@)
    } else {
        &&& l.tiles(m, n, 128, 64, 4, 6)
        &&& brain ==> ran(before, after, "matmul2d_tensorops_bf16_f32"@)
        &&& half ==> ran(before, after, "matmul2d_tensorops_f16_f32"@)
        &&& !brain && !half ==> ran(before, after, "matmul2d_tensorops_f32_relaxed"@)
    }
}

/// An accepted cooperative multiplication.
pub proof fn law_coop(
    rt: RuntimeState,
    a: Operand,
    b: Operand,
    c: Operand,
    m: usize,
    n: usize,
    k: usize,
)
    requires
        indexable(m as int, n as int, k as int),
        coop_step(rt, a, b, c, m, n, k).1 is None,
        in_view(rt, coop_step(rt, a, b, c, m, n, k).0),
    ensures
        coop_seen(
            rt,
            coop_step(rt, a, b, c, m, n, k).0,
            a,
            b,
            c,
            m as int,
            n as int,
            k as int,
        ),
        steady(rt, coop_step(rt, a, b, c, m, n, k).0),
        starts(rt.ops, coop_step(rt, a, b, c, m, n, k).0.ops),
{
    let (kernel, tile) = coop_kernel(n, elem_of(a, b));
    law_tiled(rt, kernel, a, b, c, m, n, k, tile, Seq::empty(), 1);
}

// ---------------------------------------------------------------- epilogue --

/// A fused multiplication: in slot 8 the bias, or C where there is none; in slot 9
/// the scale of the product; in slot 10 the scale of what C held; in slot 11 the
/// activation; in slot 12 whether there is a bias.
pub open spec fn epilogue_seen(
    before: RuntimeState,
    after: RuntimeState,
    a: Operand,
    b: Operand,
    c: Operand,
    epi: Epilogue,
) -> bool {
    let l = dispatch(before, after);
    let m = a.shape[0] as int;
    let n = b.shape[1] as int;
    let half = a.dtype == DType::F16 && b.dtype == DType::F16;
    let brain = a.dtype == DType::BF16 && b.dtype == DType::BF16;
    &&& brain ==> ran(before, after, "matmul2d_tensorops_bf16_f32_epi"@)
    &&& half ==> ran(before, after, "matmul2d_tensorops_f16_f32_epi"@)
    &&& !brain && !half ==> ran(before, after, "matmul2d_tensorops_f32_relaxed_epi"@)
    &&& l.multiplies(a, b, c, m, n, a.shape[1] as int)
    &&& l.tiles(m, n, 128, 64, 4, 6)
    &&& l.groups.height == 1
    &&& match epi.bias {
        Some(t) => l.takes(8, crate::gemm::operand::operand(*t)) && l.reads(12, 1),
        None => l.takes(8, c) && l.reads(12, 0),
    }
    &&& l.reads(9, epi.alpha)
    &&& l.reads(10, epi.beta)
    &&& l.reads(
        11,
        match epi.activation {
            Activation::Identity => 0,
            Activation::Relu => 1,
            Activation::GeluTanh => 2,
            Activation::Silu => 3,
        },
    )
    &&& matrices(before, a, b, c, m, n, a.shape[1] as int)
    &&& plain(a, b, c)
    &&& epi.beta == 0 ==> l.word(10) == 0
    &&& epi.bias matches Some(t) ==> within(before, crate::gemm::operand::operand(*t), n)
}

/// A is `m` by `k`, B `k` by `n` and C `m` by `n` floats, each inside its buffer.
pub open spec fn matrices(
    rt: RuntimeState,
    a: Operand,
    b: Operand,
    c: Operand,
    m: int,
    n: int,
    k: int,
) -> bool {
    &&& indexable(m, n, k)
    &&& within(rt, a, m * k)
    &&& within(rt, b, n * k)
    &&& within(rt, c, m * n)
    &&& c.dtype == DType::F32
}

/// That many elements lie inside the operand's buffer, which is the runtime's.
pub open spec fn within(rt: RuntimeState, t: Operand, elements: int) -> bool {
    let size = match t.dtype {
        DType::BF16 => 2int,
        DType::F16 => 2int,
        DType::F32 => 4int,
    };
    &&& t.buffer.runtime == rt.id
    &&& t.byte_offset + elements * size <= t.buffer.nbytes
}


/// The operands of an accepted multiplication are matrices of its extents.
pub proof fn lemma_matrices(
    rt: RuntimeState,
    a: Operand,
    b: Operand,
    c: Operand,
    layout: Layout,
    narrow: bool,
)
    requires
        crate::gemm::operand::foreign_problem(rt.id, a) is None,
        crate::gemm::operand::gemm_problem(a, b, c, layout, narrow) is None,
    ensures
        ({
            let (m, n, k, k2) = gemm_extents(a, b, layout);
            &&& matrices(rt, a, b, c, m as int, n as int, k as int)
            &&& m as u32 == m
            &&& n as u32 == n
            &&& k as u32 == k
            &&& c.shape == seq![m, n]
        }),
{
    law_accepted_extents_match(a, b, c, layout, narrow);
}

/// The operands of the plain layout: A is `m` by `k`, B is `k` by `n` and C is `m`
/// by `n`.
pub open spec fn plain(a: Operand, b: Operand, c: Operand) -> bool {
    &&& a.shape.len() == 2
    &&& b.shape.len() == 2
    &&& a.shape[1] == b.shape[0]
    &&& c.shape == seq![a.shape[0], b.shape[1]]
}

/// An accepted fused multiplication hands its kernel alpha in slot 9, the scale of
/// the product, and beta in slot 10, the scale of what C held: with a beta of zero
/// the kernel reads zero there.
pub broadcast proof fn law_epilogue(
    rt: RuntimeState,
    a: Operand,
    b: Operand,
    c: Operand,
    backend: GemmBackend,
    epi: Epilogue,
)
    requires
        !epi.identity(),
        gemm_epilogue_step(rt, a, b, c, backend, epi).1 is None,
        in_view(rt, gemm_epilogue_step(rt, a, b, c, backend, epi).0),
    ensures
        epilogue_seen(
            rt,
            (#[trigger] gemm_epilogue_step(rt, a, b, c, backend, epi)).0,
            a,
            b,
            c,
            epi,
        ),
{
    let (m, n, k, k2) = gemm_extents(a, b, Layout::NN);
    let bias = bias_of(epi.bias);
    lemma_matrices(rt, a, b, c, Layout::NN, true);
    let extra = epilogue_binds(c, epi.alpha, epi.beta, bias, epi.activation);
    reveal_with_fuel(rising, 6);
    assert(from_slot(extra, 8));
    law_tiled(
        rt,
        epilogue_kernel(elem_of(a, b)),
        a,
        b,
        c,
        m,
        n,
        k,
        TileGeom::Coop,
        extra,
        1,
    );
    let l = dispatch(rt, gemm_epilogue_step(rt, a, b, c, backend, epi).0);
    reveal(carried);
    assert(carries(l, extra[0]));
    assert(carries(l, extra[1]));
    assert(carries(l, extra[2]));
    assert(carries(l, extra[3]));
    assert(carries(l, extra[4]));
}

// ------------------------------------------------------------------- batch --

/// A batch of multiplications: the strides in slots 8, 9 and 10, a row of groups
/// for each batch element.
pub open spec fn batch_seen(
    before: RuntimeState,
    after: RuntimeState,
    a: Operand,
    b: Operand,
    c: Operand,
    spec: BatchedGemm,
) -> bool {
    let l = dispatch(before, after);
    let half = a.dtype == DType::F16 && b.dtype == DType::F16;
    let brain = a.dtype == DType::BF16 && b.dtype == DType::BF16;
    &&& brain ==> ran(before, after, "matmul2d_tensorops_bf16_f32_batched"@)
    &&& half ==> ran(before, after, "matmul2d_tensorops_f16_f32_batched"@)
    &&& !brain && !half ==> ran(before, after, "matmul2d_tensorops_f32_relaxed_batched"@)
    &&& l.multiplies(a, b, c, spec.m as int, spec.n as int, spec.k as int)
    &&& l.tiles(spec.m as int, spec.n as int, 128, 64, 4, 6)
    &&& l.groups.height == spec.batch
    &&& l.reads(8, l.word(8))
    &&& l.reads(9, l.word(9))
    &&& l.reads(10, l.word(10))
    &&& l.word(8) == spec.strides.a
    &&& l.word(9) == spec.strides.b
    &&& l.word(10) == spec.strides.c
}

/// A batch, every element of it inside its operands; one of one element is a plain
/// multiplication.
pub open spec fn batched_seen(
    before: RuntimeState,
    after: RuntimeState,
    a: Operand,
    b: Operand,
    c: Operand,
    spec: BatchedGemm,
) -> bool {
    &&& spec.batch == 1 ==> coop_seen(
        before,
        after,
        a,
        b,
        c,
        spec.m as int,
        spec.n as int,
        spec.k as int,
    )
    &&& spec.batch > 1 ==> batch_seen(before, after, a, b, c, spec)
    &&& c.dtype == DType::F32
    &&& forall|i: int|
        0 <= i < spec.batch ==> #[trigger] element_within(before, a, b, c, spec, i)
}

/// An accepted batch hands its kernel every operand and stride in its slot; a batch
/// of one is a plain multiplication.
pub broadcast proof fn law_batched(
    rt: RuntimeState,
    a: Operand,
    b: Operand,
    c: Operand,
    backend: GemmBackend,
    spec: BatchedGemm,
)
    requires
        spec.batch > 0,
        gemm_batched_step(rt, a, b, c, backend, spec).1 is None,
        in_view(rt, gemm_batched_step(rt, a, b, c, backend, spec).0),
    ensures
        ({
            let t = (#[trigger] gemm_batched_step(rt, a, b, c, backend, spec)).0;
            batched_seen(rt, t, a, b, c, spec)
        }),
{
    lemma_batch_extents(rt, a, b, c, backend, spec);
    let t = gemm_batched_step(rt, a, b, c, backend, spec).0;
    if spec.batch == 1 {
        law_coop(rt, a, b, c, spec.m, spec.n, spec.k);
    } else {
        let extra = stride_binds(spec.strides);
        reveal_with_fuel(rising, 4);
        assert(from_slot(extra, 8));
        law_tiled(
            rt,
            crate::gemm::matmul::batched_kernel(elem_of(a, b)),
            a,
            b,
            c,
            spec.m,
            spec.n,
            spec.k,
            TileGeom::Coop,
            extra,
            spec.batch,
        );
        let l = dispatch(rt, t);
        reveal(carried);
        assert(carries(l, extra[0]));
        assert(carries(l, extra[1]));
        assert(carries(l, extra[2]));
    }
}

/// Batch element `i` lies inside its operands.
pub open spec fn element_within(
    rt: RuntimeState,
    a: Operand,
    b: Operand,
    c: Operand,
    spec: BatchedGemm,
    i: int,
) -> bool {
    &&& within(rt, a, spec.strides.a * i + spec.m * spec.k)
    &&& within(rt, b, spec.strides.b * i + spec.k * spec.n)
    &&& within(rt, c, spec.strides.c * i + spec.m * spec.n)
}

proof fn lemma_batch_extents(
    rt: RuntimeState,
    a: Operand,
    b: Operand,
    c: Operand,
    backend: GemmBackend,
    spec: BatchedGemm,
)
    requires
        spec.batch > 0,
        crate::gemm::matmul::batch_problem(rt, a, b, c, backend, spec) is None,
    ensures
        indexable(spec.m as int, spec.n as int, spec.k as int),
        spec.strides.a <= u32::MAX,
        spec.strides.b <= u32::MAX,
        spec.strides.c <= u32::MAX,
        c.dtype == DType::F32,
        forall|i: int| 0 <= i < spec.batch ==> #[trigger] element_within(rt, a, b, c, spec, i),
{
    let (m, n, k) = (spec.m as int, spec.n as int, spec.k as int);
    crate::gemm::matmul::law_batch_stays_inside(a, m * k, spec.strides.a, spec.batch, "A"@, 0);
    crate::gemm::matmul::law_batch_stays_inside(b, k * n, spec.strides.b, spec.batch, "B"@, 0);
    crate::gemm::matmul::law_batch_stays_inside(c, m * n, spec.strides.c, spec.batch, "C"@, 0);
    assert(m <= m * k && k <= m * k && n <= k * n) by (nonlinear_arith)
        requires
            m > 0,
            n > 0,
            k > 0,
    ;
    assert forall|i: int| 0 <= i < spec.batch implies #[trigger] element_within(
        rt,
        a,
        b,
        c,
        spec,
        i,
    ) by {
        crate::gemm::matmul::law_batch_stays_inside(a, m * k, spec.strides.a, spec.batch, "A"@, i);
        crate::gemm::matmul::law_batch_stays_inside(b, k * n, spec.strides.b, spec.batch, "B"@, i);
        crate::gemm::matmul::law_batch_stays_inside(c, m * n, spec.strides.c, spec.batch, "C"@, i);
    }
}

// -------------------------------------------------------------- exact f32 ---

/// A multiplication into zeroed output: a dispatch that zeroes every element of C,
/// then one that multiplies, with the interior flag in slot 8.
pub open spec fn zeroed_seen(
    before: RuntimeState,
    after: RuntimeState,
    kernel: Seq<char>,
    a: Operand,
    b: Operand,
    c: Operand,
    m: int,
    n: int,
    k: int,
    tile: TileGeom,
) -> bool {
    let one = launches(before, after)[0];
    let two = launches(before, after)[1];
    let (rows, cols, simdgroups) = tile_shape(tile);
    &&& launches(before, after).len() == 2
    &&& one.runs(before, "zero_f32"@)
    &&& one.takes(0, c)
    &&& one.reads(1, (m * n) as u32)
    &&& covers(one, m * n)
    &&& two.runs(before, kernel)
    &&& two.behind(one)
    &&& two.multiplies(a, b, c, m, n, k)
    &&& two.tiles(m, n, rows, cols, simdgroups, 6)
    &&& two.groups.height == 1
    &&& two.reads(
        8,
        if before.ab.gemm_value().0 {
            1
        } else {
            0
        },
    )
}

/// Zeroing and multiplying, once accepted.
#[verifier::spinoff_prover]
#[verifier::rlimit(40)]
pub proof fn law_zeroed(
    rt: RuntimeState,
    kernel: Seq<char>,
    a: Operand,
    b: Operand,
    c: Operand,
    m: usize,
    n: usize,
    k: usize,
    tile: TileGeom,
)
    requires
        indexable(m as int, n as int, k as int),
        c.count() == m * n,
        zeroed_step(rt, kernel, a, b, c, m, n, k, tile).1 is None,
        in_view(rt, zeroed_step(rt, kernel, a, b, c, m, n, k, tile).0),
    ensures
        zeroed_seen(
            rt,
            zeroed_step(rt, kernel, a, b, c, m, n, k, tile).0,
            kernel,
            a,
            b,
            c,
            m as int,
            n as int,
            k as int,
            tile,
        ),
        steady(rt, zeroed_step(rt, kernel, a, b, c, m, n, k, tile).0),
        starts(rt.ops, zeroed_step(rt, kernel, a, b, c, m, n, k, tile).0.ops),
{
    let end = zeroed_step(rt, kernel, a, b, c, m, n, k, tile).0;
    law_pipeline(rt, kernel);
    let s = rt.piped(kernel).0;
    let p = rt.piped(kernel).1->Ok_0;
    law_pipeline(s, "zero_f32"@);
    let t = s.piped("zero_f32"@).0;
    let z = s.piped("zero_f32"@).1->Ok_0;
    assert(t.ab == rt.ab) by {
        reveal(RuntimeState::piped);
    }
    let f = flags_read(t);
    let one = zero_pass(z, c);
    let head = matmul_binds(a, b, c, m, n, k, tile);
    let two = PassView {
        pipeline: p,
        binds: head + interior_bind(t),
        groups: size3(tile.groups(m, n), 1, 1),
        threads: size3(tile.threads(p), 1, 1),
    };
    lemma_pair_shows(f, one, two);
    lemma_quietly_on(rt.ops, s.ops, t.ops);
    lemma_launches_after_quiet(rt, f, end);
    assert(starts(rt.ops, f.ops)) by {
        reveal(quietly);
        reveal(starts);
    }
    lemma_starts_on(rt.ops, f.ops, end.ops);
    let x = launches(rt, end)[0];
    let y = launches(rt, end)[1];
    lemma_picked(x, one.binds, 2);
    reveal_with_fuel(picked, 3);
    reveal_with_fuel(clear, 3);
    assert(m * n > 0) by (nonlinear_arith)
        requires
            m > 0,
            n > 0,
    ;
    lemma_row_covers(x, z.thread_execution_width, (m * n) as usize);
    reveal_with_fuel(rising, 9);
    lemma_carried_joined(y, head, interior_bind(t), 8);
    reveal(carried);
    assert(carries(y, head[0]));
    assert(carries(y, head[1]));
    assert(carries(y, head[2]));
    assert(carries(y, head[3]));
    assert(carries(y, head[4]));
    assert(carries(y, head[5]));
    assert(carries(y, head[6]));
    assert(carries(y, head[7]));
    assert(carries(y, interior_bind(t)[0]));
    lemma_tiles(y, p, m, n, tile, 6);
}

/// The portable path: tiles of 16 by 16, four simdgroups each, and the edge kernel
/// unless every extent is whole tiles.
pub open spec fn simdgroup_seen(
    before: RuntimeState,
    after: RuntimeState,
    a: Operand,
    b: Operand,
    c: Operand,
    m: int,
    n: int,
    k: int,
) -> bool {
    let l = dispatch(before, after);
    &&& ran(
        before,
        after,
        if m % 16 == 0 && n % 16 == 0 && k % 8 == 0 {
            "matmul_simdgroup_f32"@
        } else {
            "matmul_simdgroup_edges_f32"@
        },
    )
    &&& l.multiplies(a, b, c, m, n, k)
    &&& n <= l.groups.width * 16
    &&& (l.groups.width - 1) * 16 < n
    &&& m <= l.groups.height * 16
    &&& (l.groups.height - 1) * 16 < m
    &&& l.groups.depth == 1
    &&& l.has_simdgroups(4)
}

/// An accepted multiplication on the portable path.
pub proof fn law_simdgroup(
    rt: RuntimeState,
    a: Operand,
    b: Operand,
    c: Operand,
    m: usize,
    n: usize,
    k: usize,
)
    requires
        indexable(m as int, n as int, k as int),
        simdgroup_step(rt, a, b, c, m, n, k).1 is None,
        in_view(rt, simdgroup_step(rt, a, b, c, m, n, k).0),
    ensures
        simdgroup_seen(
            rt,
            simdgroup_step(rt, a, b, c, m, n, k).0,
            a,
            b,
            c,
            m as int,
            n as int,
            k as int,
        ),
        steady(rt, simdgroup_step(rt, a, b, c, m, n, k).0),
        starts(rt.ops, simdgroup_step(rt, a, b, c, m, n, k).0.ops),
{
    let kernel = simdgroup_kernel(m, n, k);
    let p = rt.piped(kernel).1->Ok_0;
    let binds = seq![
        crate::gemm::tiles::bare(a, 0),
        crate::gemm::tiles::bare(b, 1),
        crate::gemm::tiles::bare(c, 2),
        word_at(m as u32, 3),
        word_at(n as u32, 4),
        word_at(k as u32, 5),
    ];
    crate::sizes::lemma_ceil_div_covers(n as int, 16);
    crate::sizes::lemma_ceil_div_covers(m as int, 16);
    lemma_named_launch(
        rt,
        kernel,
        binds,
        None,
        size3(ceil_div(n as int, 16) as usize, ceil_div(m as int, 16) as usize, 1),
        size3(crate::gemm::tiles::saturated(p.thread_execution_width * 4), 1, 1),
    );
    let l = dispatch(rt, simdgroup_step(rt, a, b, c, m, n, k).0);
    lemma_picked(l, binds, 6);
    reveal_with_fuel(picked, 7);
    reveal_with_fuel(clear, 7);
}

/// A multiplication: A, B and C are matrices of its extents, and on TensorOps it
/// goes to the exact tile of one simdgroup where both operands are f32 and relaxed
/// precision is not asked for, else to a cooperative tile of four.
pub open spec fn gemm_seen(
    before: RuntimeState,
    after: RuntimeState,
    a: Operand,
    b: Operand,
    c: Operand,
    backend: GemmBackend,
) -> bool {
    let m = a.shape[0] as int;
    let n = b.shape[1] as int;
    let k = a.shape[1] as int;
    let relaxed = before.settings.relaxed_precision && before.settings.precision
        == crate::state::PrecisionMode::F32 && crate::runtime::has_tensorops_of(before.kernels);
    &&& plain(a, b, c)
    &&& a.dtype == b.dtype
    &&& matrices(before, a, b, c, m, n, k)
    &&& match backend {
        GemmBackend::Simdgroup => a.dtype == DType::F32 && simdgroup_seen(
            before,
            after,
            a,
            b,
            c,
            m,
            n,
            k,
        ),
        GemmBackend::TensorOps => if a.dtype == DType::F32 && !relaxed {
            zeroed_seen(
                before,
                after,
                "matmul2d_tensorops_f32"@,
                a,
                b,
                c,
                m,
                n,
                k,
                TileGeom::F32,
            )
        } else {
            coop_seen(before, after, a, b, c, m, n, k)
        },
    }
}

/// An accepted multiplication hands its kernels the operands in their slots.
pub broadcast proof fn law_gemm(
    rt: RuntimeState,
    a: Operand,
    b: Operand,
    c: Operand,
    backend: GemmBackend,
)
    requires
        gemm_step(rt, a, b, c, backend).1 is None,
        in_view(rt, gemm_step(rt, a, b, c, backend).0),
    ensures
        ({
            let t = (#[trigger] gemm_step(rt, a, b, c, backend)).0;
            gemm_seen(rt, t, a, b, c, backend) && steady(rt, t) && starts(rt.ops, t.ops)
        }),
{
    let (m, n, k, k2) = gemm_extents(a, b, Layout::NN);
    lemma_matrices(rt, a, b, c, Layout::NN, true);
    law_accepted_extents_match(a, b, c, Layout::NN, true);
    match backend {
        GemmBackend::Simdgroup => {
            law_simdgroup(rt, a, b, c, m, n, k);
        },
        GemmBackend::TensorOps => {
            if a.dtype != DType::F32 || crate::gemm::operand::wants_relaxed(rt, backend) {
                law_coop(rt, a, b, c, m, n, k);
            } else {
                law_zeroed(rt, "matmul2d_tensorops_f32"@, a, b, c, m, n, k, TileGeom::F32);
            }
        },
    }
}

} // verus!
