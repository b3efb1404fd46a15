//! Tile geometries and the launches that walk them.

use vstd::prelude::*;

use crate::ab_flags::{gemm_interior_offsets, AbFlags};
use crate::device::{mtl_size, size3, MtlSize, Pipeline};
use crate::dispatch::{
    groups_for, lanes_for, launch_pair, pair_fn, tensor_bind, Bind, Binder, BinderState, PassView,
};
use crate::gemm::cast::operand_bind;
use crate::gemm::operand::{operand, Operand};
use crate::nn::check::{bind_list, word, word_at};
use crate::nn::gemv::{flag, flag_word};
use crate::runtime::GpuRuntime;
use crate::sizes::{ceil_div, div_ceil, least, max_usize, min_usize, most};
use crate::state::RuntimeState;
use crate::tensor::Tensor;
use crate::text::reports;

verus! {

// ----------------------------------------------------------- geometries ----

/// Tile geometry of a TensorOps kernel.
#[derive(Clone, Copy, Debug, PartialEq, Eq, Structural)]
pub enum TileGeom {
    /// Exact f32: 32 x 32, one simdgroup.
    F32,
    /// Split-K bf16: 64 x 32, four simdgroups.
    SplitBf16,
    /// Cooperative, wide: 128 x 64, four simdgroups.
    Coop,
    /// Cooperative, narrow or accumulating: 64 x 64, four simdgroups.
    CoopSquare,
}

impl TileGeom {
    /// Rows of a tile.
    pub open spec fn sm(self) -> usize {
        match self {
            TileGeom::F32 => 32,
            TileGeom::SplitBf16 => 64,
            TileGeom::Coop => 128,
            TileGeom::CoopSquare => 64,
        }
    }

    /// Columns of a tile.
    pub open spec fn sn(self) -> usize {
        match self {
            TileGeom::F32 => 32,
            TileGeom::SplitBf16 => 32,
            TileGeom::Coop => 64,
            TileGeom::CoopSquare => 64,
        }
    }

    /// Simdgroups of a threadgroup.
    pub open spec fn simdgroups(self) -> usize {
        match self {
            TileGeom::F32 => 1,
            TileGeom::SplitBf16 => 4,
            TileGeom::Coop => 4,
            TileGeom::CoopSquare => 4,
        }
    }

    fn dims(self) -> (r: (usize, usize, usize))
        ensures
            r == (self.sm(), self.sn(), self.simdgroups()),
    {
        match self {
            TileGeom::F32 => (32, 32, 1),
            TileGeom::SplitBf16 => (64, 32, 4),
            TileGeom::Coop => (128, 64, 4),
            TileGeom::CoopSquare => (64, 64, 4),
        }
    }

    /// Tiles across the columns.
    pub open spec fn across(self, n: usize) -> usize {
        ceil_div(n as int, self.sn() as int) as usize
    }

    /// Tiles down the rows.
    pub open spec fn down(self, m: usize) -> usize {
        ceil_div(m as int, self.sm() as int) as usize
    }

    /// Threadgroups: one per tile, in one dimension.
    pub open spec fn groups(self, m: usize, n: usize) -> usize {
        tile_count(self.across(n) as int, self.down(m) as int) as usize
    }

    /// Threads of a threadgroup on a pipeline.
    pub open spec fn threads(self, p: Pipeline) -> usize {
        saturated(p.thread_execution_width * self.simdgroups())
    }
}

/// The number, or the greatest count where it exceeds that.
pub open spec fn saturated(n: int) -> usize {
    least(n, usize::MAX as int) as usize
}

fn saturating_product(a: usize, b: usize) -> (r: usize)
    ensures
        r == saturated(a * b),
{
    match a.checked_mul(b) {
        Some(n) => n,
        None => usize::MAX,
    }
}

/// Tiles of a rectangle, at least one.
pub open spec fn tile_count(across: int, down: int) -> int {
    most(saturated(across * down) as int, 1)
}

/// Threadgroups of a rectangle of tiles, at least one.
pub fn morton_tg_count(tiles_n: usize, tiles_m: usize) -> (r: usize)
    ensures
        r == tile_count(tiles_n as int, tiles_m as int),
{
    max_usize(saturating_product(tiles_n, tiles_m), 1)
}

/// The tiles of a geometry cover every element of the output.
pub proof fn law_tiles_cover_output(tile: TileGeom, m: usize, n: usize, row: int, col: int)
    requires
        0 <= row < m,
        0 <= col < n,
        m * n <= i32::MAX,
    ensures
        row / tile.sm() as int * tile.sm() as int <= row,
        (row / tile.sm() as int) < tile.down(m),
        (col / tile.sn() as int) < tile.across(n),
        tile.groups(m, n) == tile.across(n) * tile.down(m),
{
    let sm = tile.sm() as int;
    let sn = tile.sn() as int;
    crate::sizes::lemma_ceil_div_covers(m as int, sm);
    crate::sizes::lemma_ceil_div_covers(n as int, sn);
    lemma_tile(row, m as int, sm);
    lemma_tile(col, n as int, sn);
    let x = ceil_div(n as int, sn);
    let y = ceil_div(m as int, sm);
    assert(1 <= x * y <= m * n) by (nonlinear_arith)
        requires
            1 <= x <= n,
            1 <= y <= m,
    ;
}

proof fn lemma_tile(i: int, n: int, unit: int)
    requires
        0 <= i < n,
        1 <= unit,
    ensures
        i / unit * unit <= i,
        (i / unit) < ceil_div(n, unit),
        1 <= ceil_div(n, unit) <= n,
{
    crate::sizes::lemma_ceil_div_covers(n, unit);
    let q = ceil_div(n, unit);
    vstd::arithmetic::div_mod::lemma_fundamental_div_mod(i, unit);
    let d = i / unit;
    assert(d * unit <= i && d < q && 1 <= q) by (nonlinear_arith)
        requires
            i == unit * d + i % unit,
            0 <= i % unit < unit,
            0 <= i < n,
            q * unit >= n,
            unit >= 1,
    ;
    assert(q <= n) by (nonlinear_arith)
        requires
            (q - 1) * unit < n,
            unit >= 1,
            q >= 1,
    ;
}

// ---------------------------------------------------------------- binds ----

/// An operand as bare storage.
pub open spec fn bare(t: Operand, index: usize) -> Bind {
    Bind::Bare { slab: t.buffer.slab, byte_offset: t.byte_offset, index }
}

pub(crate) fn bare_bind(t: &Tensor, index: usize) -> (r: Bind)
    ensures
        r == bare(operand(*t), index),
{
    Bind::Bare { slab: t.buffer.at().slab, byte_offset: t.byte_offset, index }
}

/// The binds every tiled kernel starts with.
pub open spec fn matmul_binds(
    a: Operand,
    b: Operand,
    c: Operand,
    m: usize,
    n: usize,
    k: usize,
    tile: TileGeom,
) -> Seq<Bind> {
    seq![
        bare(a, 0),
        bare(b, 1),
        bare(c, 2),
        word_at(m as u32, 3),
        word_at(n as u32, 4),
        word_at(k as u32, 5),
        word_at(tile.across(n) as u32, 6),
        word_at(tile.down(m) as u32, 7),
    ]
}

fn matmul_bind_list(
    a: &Tensor,
    b: &Tensor,
    c: &Tensor,
    m: usize,
    n: usize,
    k: usize,
    tile: TileGeom,
    extra: &[Bind],
) -> (r: Vec<Bind>)
    ensures
        r@ == matmul_binds(operand(*a), operand(*b), operand(*c), m, n, k, tile) + extra@,
{
    let (sm, sn, _) = tile.dims();
    let head = [
        bare_bind(a, 0),
        bare_bind(b, 1),
        bare_bind(c, 2),
        word(m as u32, 3),
        word(n as u32, 4),
        word(k as u32, 5),
        word(div_ceil(n, sn) as u32, 6),
        word(div_ceil(m, sm) as u32, 7),
    ];
    assert(head@ =~= matmul_binds(operand(*a), operand(*b), operand(*c), m, n, k, tile));
    bind_list(&head, extra)
}

fn tile_groups(tile: TileGeom, m: usize, n: usize) -> (r: usize)
    ensures
        r == tile.groups(m, n),
{
    let (sm, sn, _) = tile.dims();
    morton_tg_count(div_ceil(n, sn), div_ceil(m, sm))
}

fn tile_threads(tile: TileGeom, p: &Pipeline) -> (r: usize)
    ensures
        r == tile.threads(*p),
{
    let (_, _, simdgroups) = tile.dims();
    saturating_product(p.thread_execution_width, simdgroups)
}

// --------------------------------------------------------- one dispatch ----

/// Effect of one tiled dispatch per batch element, with further binds.
pub open spec fn tiled_step(
    rt: RuntimeState,
    kernel: Seq<char>,
    a: Operand,
    b: Operand,
    c: Operand,
    m: usize,
    n: usize,
    k: usize,
    tile: TileGeom,
    extra: Seq<Bind>,
    batch: usize,
) -> (RuntimeState, Option<Seq<char>>) {
    let (s, r) = rt.piped(kernel);
    match r {
        Err(e) => (s, Some(e)),
        Ok(p) => s.launched(
            p,
            matmul_binds(a, b, c, m, n, k, tile) + extra,
            None,
            size3(tile.groups(m, n), batch, 1),
            size3(tile.threads(p), 1, 1),
        ),
    }
}

pub(crate) fn launch_tiled(
    rt: &mut GpuRuntime,
    kernel: &str,
    a: &Tensor,
    b: &Tensor,
    c: &Tensor,
    m: usize,
    n: usize,
    k: usize,
    tile: TileGeom,
    extra: &[Bind],
    batch: usize,
) -> (r: Result<(), String>)
    requires
        old(rt).inv(),
    ensures
        final(rt).inv(),
        ({
            let (s, problem) = tiled_step(
                old(rt)@,
                kernel@,
                operand(*a),
                operand(*b),
                operand(*c),
                m,
                n,
                k,
                tile,
                extra@,
                batch,
            );
            final(rt)@ == s && reports(r, problem)
        }),
{
    let p = rt.pipeline(kernel)?;
    let binds = matmul_bind_list(a, b, c, m, n, k, tile, extra);
    let groups: usize = tile_groups(tile, m, n);
    let threads: usize = tile_threads(tile, &p);
    rt.launch(&p, binds.as_slice(), None, mtl_size(groups, batch, 1), mtl_size(threads, 1, 1))
}

// ---------------------------------------------------------------- flags ----

/// After the GEMM flags were read.
pub open spec fn flags_read(rt: RuntimeState) -> RuntimeState {
    RuntimeState { ab: AbFlags { gemm: Some(rt.ab.gemm_value()), ..rt.ab }, ..rt }
}

/// The bind of the interior-offset flag.
pub open spec fn interior_bind(rt: RuntimeState) -> Seq<Bind> {
    seq![word_at(flag(rt.ab.gemm_value().0), 8)]
}

/// Reads the interior-offset flag.
pub(crate) fn interior(rt: &mut GpuRuntime) -> (r: [Bind; 1])
    requires
        old(rt).inv(),
    ensures
        final(rt).inv(),
        final(rt)@ == flags_read(old(rt)@),
        r@ == interior_bind(old(rt)@),
{
    let on = gemm_interior_offsets(rt.ab_flags());
    let r = [word(flag_word(on), 8)];
    assert(r@ =~= interior_bind(old(rt)@));
    assert(rt@ =~= flags_read(old(rt)@));
    r
}

// ------------------------------------------------------ zero, then multiply

/// The pass that zeroes the output.
pub open spec fn zero_pass(z: Pipeline, c: Operand) -> PassView {
    let count = c.count() as usize;
    PassView {
        pipeline: z,
        binds: seq![operand_bind(c, 0), word_at(count as u32, 1)],
        groups: size3(groups_for(z.thread_execution_width, count), 1, 1),
        threads: size3(lanes_for(z.thread_execution_width, count), 1, 1),
    }
}

/// Lanes and groups of the zero pass.
fn zero_geometry(z: &Pipeline, count: usize) -> (r: (MtlSize, MtlSize))
    ensures
        r.0 == size3(groups_for(z.thread_execution_width, count), 1, 1),
        r.1 == size3(lanes_for(z.thread_execution_width, count), 1, 1),
{
    let lanes: usize = max_usize(min_usize(z.thread_execution_width, count), 1);
    (mtl_size(div_ceil(count, lanes), 1, 1), mtl_size(lanes, 1, 1))
}

/// Effect of zeroing C and multiplying into it, in one scope.
pub open spec fn zeroed_step(
    rt: RuntimeState,
    kernel: Seq<char>,
    a: Operand,
    b: Operand,
    c: Operand,
    m: usize,
    n: usize,
    k: usize,
    tile: TileGeom,
) -> (RuntimeState, Option<Seq<char>>) {
    let (s, r) = rt.piped(kernel);
    match r {
        Err(e) => (s, Some(e)),
        Ok(p) => {
            let (t, q) = s.piped("zero_f32"@);
            match q {
                Err(e) => (t, Some(e)),
                Ok(z) => flags_read(t).encoded(
                    None,
                    pair_fn(
                        zero_pass(z, c),
                        PassView {
                            pipeline: p,
                            binds: matmul_binds(a, b, c, m, n, k, tile) + interior_bind(t),
                            groups: size3(tile.groups(m, n), 1, 1),
                            threads: size3(tile.threads(p), 1, 1),
                        },
                    ),
                ),
            }
        },
    }
}

pub(crate) fn launch_zeroed(
    rt: &mut GpuRuntime,
    kernel: &str,
    a: &Tensor,
    b: &Tensor,
    c: &Tensor,
    m: usize,
    n: usize,
    k: usize,
    tile: TileGeom,
) -> (r: Result<(), String>)
    requires
        old(rt).inv(),
        c.valid(),
    ensures
        final(rt).inv(),
        ({
            let (s, problem) = zeroed_step(
                old(rt)@,
                kernel@,
                operand(*a),
                operand(*b),
                operand(*c),
                m,
                n,
                k,
                tile,
            );
            final(rt)@ == s && reports(r, problem)
        }),
{
    proof {
        crate::tensor::lemma_span(*c);
    }
    let p = rt.pipeline(kernel)?;
    let z = rt.pipeline("zero_f32")?;
    let count: usize = c.numel();
    let flags = interior(rt);
    let z_binds = [tensor_bind(c, 0), word(count as u32, 1)];
    assert(z_binds@ =~= zero_pass(z, operand(*c)).binds);
    let (z_groups, z_threads) = zero_geometry(&z, count);
    let binds = matmul_bind_list(a, b, c, m, n, k, tile, &flags);
    let groups: usize = tile_groups(tile, m, n);
    let threads: usize = tile_threads(tile, &p);
    launch_pair(
        rt,
        &z,
        &z_binds,
        z_groups,
        z_threads,
        &p,
        binds.as_slice(),
        mtl_size(groups, 1, 1),
        mtl_size(threads, 1, 1),
    )
}

// -------------------------------------------------------------- split-K ----

/// Elements of the contracted dimension that one partition takes.
pub const K_PARTITION: u32 = 256;

/// Tall and small: the contracted dimension is split.
pub open spec fn splits(m: usize, n: usize, k: usize) -> bool {
    k >= 2048 && m <= 384 && n <= 384 && (m <= 128 || n <= 128)
}

/// Tall and small: the contracted dimension is split.
pub fn prefer_tn_splitk(m: usize, n: usize, k: usize) -> (r: bool)
    ensures
        r == splits(m, n, k),
{
    k >= 2048 && m <= 384 && n <= 384 && min_usize(m, n) <= 128
}

/// Partitions of the contracted dimension.
pub open spec fn partitions(k: usize) -> int {
    ceil_div(k as int, 256)
}

/// Every element of the contracted dimension falls in exactly one partition.
pub proof fn law_partitions_cover_k(k: usize, i: int)
    requires
        0 <= i < k,
    ensures
        0 <= i / 256 < partitions(k),
        i / 256 * 256 <= i < (i / 256 + 1) * 256,
        forall|p: int| #![trigger p * 256] p * 256 <= i < (p + 1) * 256 ==> p == i / 256,
{
    lemma_tile(i, k as int, 256);
}

/// Binds of partition `i`.
pub open spec fn partition_binds(
    a: Operand,
    b: Operand,
    c: Operand,
    m: usize,
    n: usize,
    k: usize,
    tile: TileGeom,
    i: int,
) -> Seq<Bind> {
    seq![
        bare(a, 0),
        bare(b, 1),
        bare(c, 2),
        word_at(m as u32, 3),
        word_at(n as u32, 4),
        word_at(k as u32, 5),
        word_at((i * 256) as u32, 6),
        word_at(256, 7),
        word_at(tile.across(n) as u32, 8),
        word_at(tile.down(m) as u32, 9),
    ]
}

/// After the first `i` partitions, with a barrier between consecutive ones
/// where dispatches are not followed by one.
pub open spec fn partitioned(
    start: BinderState,
    a: Operand,
    b: Operand,
    c: Operand,
    m: usize,
    n: usize,
    k: usize,
    tile: TileGeom,
    p: Pipeline,
    i: int,
) -> BinderState
    decreases i,
{
    if i <= 0 {
        start
    } else {
        let s = partitioned(start, a, b, c, m, n, k, tile, p, i - 1);
        let t = if i > 1 && start.skip_auto {
            s.with_barrier()
        } else {
            s
        };
        t.bound_all(partition_binds(a, b, c, m, n, k, tile, i - 1)).dispatched(
            size3(tile.groups(m, n), 1, 1),
            size3(tile.threads(p), 1, 1),
        )
    }
}

/// A split multiplication as recorded by a binder: the output is zeroed first
/// where asked, then every partition accumulates.
pub open spec fn split_fn(
    a: Operand,
    b: Operand,
    c: Operand,
    m: usize,
    n: usize,
    k: usize,
    tile: TileGeom,
    p: Pipeline,
    z: Pipeline,
    zero_first: bool,
) -> spec_fn(BinderState) -> BinderState {
    |s: BinderState|
        {
            let cleared = if zero_first {
                let t = zero_pass(z, c).on(s);
                if s.skip_auto {
                    t.with_barrier()
                } else {
                    t
                }
            } else {
                s
            };
            partitioned(cleared.piped(p), a, b, c, m, n, k, tile, p, partitions(k))
        }
}

/// Effect of a split multiplication.
pub open spec fn split_step(
    rt: RuntimeState,
    kernel: Seq<char>,
    a: Operand,
    b: Operand,
    c: Operand,
    m: usize,
    n: usize,
    k: usize,
    tile: TileGeom,
    zero_first: bool,
) -> (RuntimeState, Option<Seq<char>>) {
    let (s, r) = rt.piped(kernel);
    match r {
        Err(e) => (s, Some(e)),
        Ok(p) => {
            let (t, q) = s.piped("zero_f32"@);
            match q {
                Err(e) => (t, Some(e)),
                Ok(z) => t.encoded(None, split_fn(a, b, c, m, n, k, tile, p, z, zero_first)),
            }
        },
    }
}

#[verifier::rlimit(40)]
fn encode_partitions(
    bnd: &mut Binder,
    a: &Tensor,
    b: &Tensor,
    c: &Tensor,
    m: usize,
    n: usize,
    k: usize,
    tile: TileGeom,
    p: &Pipeline,
)
    requires
        k <= i32::MAX,
    ensures
        final(bnd)@ == partitioned(
            old(bnd)@,
            operand(*a),
            operand(*b),
            operand(*c),
            m,
            n,
            k,
            tile,
            *p,
            partitions(k),
        ),
{
    let (sm, sn, _) = tile.dims();
    let across: usize = div_ceil(n, sn);
    let down: usize = div_ceil(m, sm);
    let groups: usize = tile_groups(tile, m, n);
    let threads: usize = tile_threads(tile, p);
    let explicit = bnd.needs_explicit_barriers();
    let count: usize = div_ceil(k, K_PARTITION as usize);
    proof {
        crate::sizes::lemma_ceil_div_covers(k as int, 256);
    }
    let mut i: usize = 0;
    while i < count
        invariant
            i <= count,
            count == partitions(k),
            (count - 1) * 256 < k,
            k <= i32::MAX,
            across == tile.across(n),
            down == tile.down(m),
            groups == tile.groups(m, n),
            threads == tile.threads(*p),
            explicit == old(bnd)@.skip_auto,
            bnd@ == partitioned(
                old(bnd)@,
                operand(*a),
                operand(*b),
                operand(*c),
                m,
                n,
                k,
                tile,
                *p,
                i as int,
            ),
        decreases count - i,
    {
        if i > 0 && explicit {
            bnd.barrier();
        }
        let k0: u32 = i as u32 * K_PARTITION;
        let binds = [
            bare_bind(a, 0),
            bare_bind(b, 1),
            bare_bind(c, 2),
            word(m as u32, 3),
            word(n as u32, 4),
            word(k as u32, 5),
            word(k0, 6),
            word(K_PARTITION, 7),
            word(across as u32, 8),
            word(down as u32, 9),
        ];
        assert(binds@ =~= partition_binds(
            operand(*a),
            operand(*b),
            operand(*c),
            m,
            n,
            k,
            tile,
            i as int,
        ));
        bnd.bind_all(&binds);
        bnd.dispatch(mtl_size(groups, 1, 1), mtl_size(threads, 1, 1));
        i += 1;
    }
}

pub(crate) fn launch_split(
    rt: &mut GpuRuntime,
    kernel: &str,
    a: &Tensor,
    b: &Tensor,
    c: &Tensor,
    m: usize,
    n: usize,
    k: usize,
    tile: TileGeom,
    zero_first: bool,
) -> (r: Result<(), String>)
    requires
        old(rt).inv(),
        c.valid(),
        k <= i32::MAX,
    ensures
        final(rt).inv(),
        ({
            let (s, problem) = split_step(
                old(rt)@,
                kernel@,
                operand(*a),
                operand(*b),
                operand(*c),
                m,
                n,
                k,
                tile,
                zero_first,
            );
            final(rt)@ == s && reports(r, problem)
        }),
{
    proof {
        crate::tensor::lemma_span(*c);
    }
    let p = rt.pipeline(kernel)?;
    let z = rt.pipeline("zero_f32")?;
    let count: usize = c.numel();
    let (z_groups, z_threads) = zero_geometry(&z, count);
    match rt.may_open_scope() {
        Err(e) => {
            return Err(e);
        },
        Ok(live) => {
            if !live {
                return Ok(());
            }
        },
    }
    let mut bnd = rt.open_scope(None);
    let explicit = bnd.needs_explicit_barriers();
    if zero_first {
        let z_binds = [tensor_bind(c, 0), word(count as u32, 1)];
        assert(z_binds@ =~= zero_pass(z, operand(*c)).binds);
        bnd.set_pipeline(&z);
        bnd.bind_all(&z_binds);
        bnd.dispatch(z_groups, z_threads);
        if explicit {
            bnd.barrier();
        }
    }
    bnd.set_pipeline(&p);
    encode_partitions(&mut bnd, a, b, c, m, n, k, tile, &p);
    rt.close_scope(bnd, Ok(()))
}

} // verus!
