//! What the kernels of a split multiplication and of the transposed layouts get
//! from an accepted call.

use vstd::prelude::*;

use crate::device::{size3, Pipeline};
use crate::dispatch::BinderState;
use crate::gemm::laws::{
    indexable, law_tiled, law_zeroed, lemma_matrices, lemma_tiles, matrices, tile_shape,
    zeroed_seen,
};
use crate::gemm::operand::{gemm_extents, law_accepted_extents_match, GemmBackend, Layout, Operand};
use crate::gemm::tiles::{
    flags_read, interior_bind, partition_binds, partitioned, partitions, split_fn, split_step,
    tiled_step, zero_pass, TileGeom,
};
use crate::gemm::transposed::{
    nt_accum_step, nt_f32_step, nt_train_step, tn_accum_step, tn_f32_step, tn_train_step,
};
use crate::seen::{
    base_of, carried, carries, carries_all, clear, covers, dispatch, in_view, launches,
    law_pipeline, lemma_blob_grows, lemma_carried, lemma_error_first, lemma_launch_shows,
    lemma_launches_after_quiet, lemma_pass_shows, lemma_picked, lemma_quietly_on,
    lemma_row_covers, lemma_scope_shows, lemma_scoped_quiet, lemma_shown_op, lemma_starts_itself,
    lemma_starts_on, lemma_unscoped_quiet, open_binder, picked, quietly, ran, rising, shown,
    starts, Launch,
};
use crate::state::{launch_fn, RuntimeState};
use crate::tensor::DType;

verus! {

// ------------------------------------------------------------------ split ---

/// Partition `j` of a split multiplication: operands and extents in slots 0 to 5,
/// in slot 6 where the partition begins, in slot 7 how long it is, the tile counts
/// behind them.
#[verifier::opaque]
pub open spec fn part_seen(
    l: Launch,
    a: Operand,
    b: Operand,
    c: Operand,
    m: int,
    n: int,
    k: int,
    tile: TileGeom,
    j: int,
) -> bool {
    let (rows, cols, simdgroups) = tile_shape(tile);
    &&& l.multiplies(a, b, c, m, n, k)
    &&& l.reads(6, (j * 256) as u32)
    &&& l.reads(7, 256)
    &&& l.tiles(m, n, rows, cols, simdgroups, 8)
    &&& l.groups.height == 1
}

/// The first `i` partitions stand from `from` on, each behind the one before it.
#[verifier::opaque]
pub open spec fn parts_seen(
    all: Seq<Launch>,
    from: int,
    p: Pipeline,
    a: Operand,
    b: Operand,
    c: Operand,
    m: int,
    n: int,
    k: int,
    tile: TileGeom,
    i: int,
) -> bool {
    forall|j: int|
        0 <= j < i ==> {
            &&& part_seen(#[trigger] all[from + j], a, b, c, m, n, k, tile, j)
            &&& all[from + j].scene.pipeline == Some(p)
            &&& j > 0 ==> all[from + j].behind(all[from + j - 1])
        }
}

#[verifier::rlimit(40)]
proof fn lemma_part(
    l: Launch,
    a: Operand,
    b: Operand,
    c: Operand,
    m: usize,
    n: usize,
    k: usize,
    tile: TileGeom,
    p: Pipeline,
    j: int,
)
    requires
        indexable(m as int, n as int, k as int),
        l.scene.pipeline == Some(p),
        l.groups == size3(tile.groups(m, n), 1, 1),
        l.threads == size3(tile.threads(p), 1, 1),
        carries_all(l, partition_binds(a, b, c, m, n, k, tile, j)),
    ensures
        part_seen(l, a, b, c, m as int, n as int, k as int, tile, j),
{
    reveal(part_seen);
    let head = partition_binds(a, b, c, m, n, k, tile, j);
    assert(rising(head, 10)) by {
        reveal_with_fuel(rising, 11);
    }
    lemma_carried(l, head);
    reveal(carried);
    assert(carries(l, head[0]) && carries(l, head[1]) && carries(l, head[2]));
    assert(carries(l, head[3]) && carries(l, head[4]) && carries(l, head[5]));
    assert(carries(l, head[6]) && carries(l, head[7]) && carries(l, head[8]));
    assert(carries(l, head[9]));
    lemma_tiles(l, p, m, n, tile, 8);
}

/// A binder in the middle of a split multiplication.
pub open spec fn splitting(
    start: BinderState,
    d: BinderState,
    full: Seq<u8>,
    base: int,
    a: Operand,
    b: Operand,
    c: Operand,
    m: int,
    n: int,
    k: int,
    tile: TileGeom,
    p: Pipeline,
    i: int,
) -> bool {
    let from = shown(start, full, base).launches;
    let s = shown(d, full, base);
    &&& start.error is None
    &&& d.error is None
    &&& d.arena == start.arena
    &&& d.skip_auto == start.skip_auto
    &&& start.cursor <= d.cursor
    &&& starts(start.ops, d.ops)
    &&& starts(start.blob, d.blob)
    &&& start.ops.len() <= d.ops.len()
    &&& d.latched ==> s.scene.table == Some(crate::device::PERSISTENT_TABLE)
    &&& s.scene.pipeline == Some(p)
    &&& s.launches.len() == from.len() + i
    &&& starts(from, s.launches)
    &&& parts_seen(s.launches, from.len() as int, p, a, b, c, m, n, k, tile, i)
    &&& i > 0 ==> s.scene.fences + (if d.skip_auto {
        1nat
    } else {
        0nat
    }) > s.launches.last().scene.fences
    &&& shown(start, full, base).scene.fences <= s.scene.fences
    &&& i > 0 ==> s.launches[from.len() as int].scene.fences >= shown(
        start,
        full,
        base,
    ).scene.fences
}

#[verifier::rlimit(60)]
proof fn lemma_parts_show(
    start: BinderState,
    full: Seq<u8>,
    base: int,
    a: Operand,
    b: Operand,
    c: Operand,
    m: usize,
    n: usize,
    k: usize,
    tile: TileGeom,
    p: Pipeline,
    i: int,
)
    requires
        indexable(m as int, n as int, k as int),
        0 <= i,
        0 <= base <= start.ops.len(),
        partitioned(start, a, b, c, m, n, k, tile, p, i).error is None,
        starts(partitioned(start, a, b, c, m, n, k, tile, p, i).blob, full),
        full.len() <= usize::MAX,
        0 <= start.cursor,
        start.latched ==> shown(start, full, base).scene.table == Some(
            crate::device::PERSISTENT_TABLE,
        ),
        shown(start, full, base).scene.pipeline == Some(p),
    ensures
        splitting(
            start,
            partitioned(start, a, b, c, m, n, k, tile, p, i),
            full,
            base,
            a,
            b,
            c,
            m as int,
            n as int,
            k as int,
            tile,
            p,
            i,
        ),
    decreases i,
{
    let d = partitioned(start, a, b, c, m, n, k, tile, p, i);
    let from = shown(start, full, base).launches;
    if i <= 0 {
        lemma_starts_itself(start.ops);
        lemma_starts_itself(start.blob);
        lemma_starts_itself(from);
        reveal(parts_seen);
    } else {
        let s = partitioned(start, a, b, c, m, n, k, tile, p, i - 1);
        let fence = i > 1 && start.skip_auto;
        let t = if fence {
            s.with_barrier()
        } else {
            s
        };
        let binds = partition_binds(a, b, c, m, n, k, tile, i - 1);
        let groups = size3(tile.groups(m, n), 1, 1);
        let threads = size3(tile.threads(p), 1, 1);
        assert(d == t.bound_all(binds).dispatched(groups, threads));
        lemma_blob_grows(t, binds, binds.len() as int);
        lemma_error_first(t, binds, binds.len() as int);
        assert(t.bound_all(binds).error is None);
        assert(d.blob == t.bound_all(binds).blob);
        assert(t.error is None && s.error is None && s.blob == t.blob);
        lemma_starts_on(s.blob, d.blob, full);
        lemma_parts_show(start, full, base, a, b, c, m, n, k, tile, p, i - 1);
        if fence {
            lemma_shown_op(s, crate::device::DeviceOp::Barrier, full, base);
        }
        assert(starts(s.ops, t.ops)) by {
            reveal(starts);
        }
        assert(t.ops.len() >= s.ops.len());
        lemma_pass_shows(t, binds, groups, threads, full, base);
        lemma_starts_on(start.ops, s.ops, t.ops);
        lemma_starts_on(start.ops, t.ops, d.ops);
        lemma_starts_on(start.blob, s.blob, d.blob);
        let l = shown(d, full, base).launches.last();
        lemma_part(l, a, b, c, m, n, k, tile, p, i - 1);
        lemma_parts_step(
            start,
            s,
            t,
            d,
            full,
            base,
            a,
            b,
            c,
            m as int,
            n as int,
            k as int,
            tile,
            p,
            i,
        );
    }
}

/// One more part.
proof fn lemma_parts_step(
    start: BinderState,
    s: BinderState,
    t: BinderState,
    d: BinderState,
    full: Seq<u8>,
    base: int,
    a: Operand,
    b: Operand,
    c: Operand,
    m: int,
    n: int,
    k: int,
    tile: TileGeom,
    p: Pipeline,
    i: int,
)
    requires
        0 < i,
        splitting(start, s, full, base, a, b, c, m, n, k, tile, p, i - 1),
        starts(start.ops, d.ops),
        starts(start.blob, d.blob),
        start.ops.len() <= d.ops.len(),
        s.cursor <= d.cursor,
        d.error is None,
        d.arena == start.arena,
        d.skip_auto == start.skip_auto,
        t.skip_auto == start.skip_auto,
        d.latched,
        ({
            let x = shown(s, full, base);
            let w = shown(t, full, base);
            let y = shown(d, full, base);
            let l = y.launches.last();
            &&& w.launches == x.launches
            &&& w.scene.pipeline == x.scene.pipeline
            &&& w.scene.fences == x.scene.fences + (if i > 1 && start.skip_auto {
                1nat
            } else {
                0nat
            })
            &&& y.scene.table == Some(crate::device::PERSISTENT_TABLE)
            &&& y.scene.pipeline == w.scene.pipeline
            &&& l.scene.fences == w.scene.fences
            &&& y.scene.fences == w.scene.fences + (if t.skip_auto {
                0nat
            } else {
                1nat
            })
            &&& y.launches == w.launches.push(l)
            &&& l.scene.pipeline == Some(p)
            &&& part_seen(l, a, b, c, m, n, k, tile, i - 1)
        }),
    ensures
        splitting(start, d, full, base, a, b, c, m, n, k, tile, p, i),
{
    let from = shown(start, full, base).launches;
    let x = shown(s, full, base);
    let y = shown(d, full, base);
    assert(starts(x.launches, y.launches)) by {
        reveal(starts);
    }
    lemma_starts_on(from, x.launches, y.launches);
    let f = from.len() as int;
    assert(parts_seen(y.launches, f, p, a, b, c, m, n, k, tile, i)) by {
        reveal(parts_seen);
        assert forall|j: int| 0 <= j < i implies {
            &&& part_seen(#[trigger] y.launches[f + j], a, b, c, m, n, k, tile, j)
            &&& y.launches[f + j].scene.pipeline == Some(p)
            &&& j > 0 ==> y.launches[f + j].behind(y.launches[f + j - 1])
        } by {
            if j < i - 1 {
                assert(y.launches[f + j] == x.launches[f + j]);
                if j > 0 {
                    assert(y.launches[f + j - 1] == x.launches[f + j - 1]);
                }
            } else if j > 0 {
                assert(y.launches[f + j - 1] == x.launches.last());
            }
        }
    }
    if i > 1 {
        assert(y.launches[f] == x.launches[f]);
    }
}

/// A split multiplication: every part of 256 of the contracted dimension in a
/// dispatch of its own, each behind the one before; where asked, C is zeroed
/// first.
pub open spec fn split_seen(
    before: RuntimeState,
    after: RuntimeState,
    kernel: Seq<char>,
    a: Operand,
    b: Operand,
    c: Operand,
    m: int,
    n: int,
    k: int,
    tile: TileGeom,
    zero_first: bool,
) -> bool {
    let all = launches(before, after);
    let from = if zero_first {
        1int
    } else {
        0int
    };
    let count = all.len() - from;
    &&& count > 0
    &&& k <= count * 256
    &&& (count - 1) * 256 < k
    &&& all[from].runs(before, kernel)
    &&& parts_seen(all, from, all[from].scene.pipeline->0, a, b, c, m, n, k, tile, count)
    &&& zero_first ==> {
        &&& all[0].runs(before, "zero_f32"@)
        &&& all[0].takes(0, c)
        &&& all[0].reads(1, (m * n) as u32)
        &&& covers(all[0], m * n)
        &&& all[1].behind(all[0])
    }
}

/// The dispatches of a split multiplication, in the order they were asked for.
#[verifier::opaque]
pub open spec fn split_launches(
    all: Seq<Launch>,
    a: Operand,
    b: Operand,
    c: Operand,
    m: int,
    n: int,
    k: int,
    tile: TileGeom,
    p: Pipeline,
    z: Pipeline,
    zero_first: bool,
) -> bool {
    let from = if zero_first {
        1int
    } else {
        0int
    };
    let count = all.len() - from;
    &&& count > 0
    &&& k <= count * 256
    &&& (count - 1) * 256 < k
    &&& all[from].scene.pipeline == Some(p)
    &&& parts_seen(all, from, p, a, b, c, m, n, k, tile, count)
    &&& zero_first ==> {
        &&& all[0].scene.pipeline == Some(z)
        &&& all[0].takes(0, c)
        &&& all[0].reads(1, (m * n) as u32)
        &&& covers(all[0], m * n)
        &&& all[1].behind(all[0])
    }
}

/// The dispatch that zeroes C, and a barrier behind it.
proof fn lemma_zero_shows(
    bnd: BinderState,
    full: Seq<u8>,
    base: int,
    c: Operand,
    m: usize,
    n: usize,
    z: Pipeline,
    cleared: BinderState,
)
    requires
        0 <= base <= bnd.ops.len(),
        0 < m * n <= i32::MAX,
        c.count() == m * n,
        !bnd.latched,
        0 <= bnd.cursor,
        shown(bnd, full, base) == crate::seen::nothing(),
        full.len() <= usize::MAX,
        cleared == (if bnd.skip_auto {
            zero_pass(z, c).on(bnd).with_barrier()
        } else {
            zero_pass(z, c).on(bnd)
        }),
        cleared.error is None,
        starts(cleared.blob, full),
    ensures
        ({
            let t = shown(cleared, full, base);
            let l = t.launches[0];
            &&& t.launches.len() == 1
            &&& l.scene.pipeline == Some(z)
            &&& l.takes(0, c)
            &&& l.reads(1, (m * n) as u32)
            &&& covers(l, m * n)
            &&& l.scene.fences < t.scene.fences
            &&& t.scene.table == Some(crate::device::PERSISTENT_TABLE)
            &&& cleared.latched
            &&& cleared.arena == bnd.arena
            &&& cleared.skip_auto == bnd.skip_auto
            &&& bnd.cursor <= cleared.cursor
            &&& starts(bnd.ops, cleared.ops)
            &&& starts(bnd.blob, cleared.blob)
            &&& bnd.ops.len() <= cleared.ops.len()
        }),
{
    let zp = zero_pass(z, c);
    let zeroed = zp.on(bnd);
    assert(zeroed == launch_fn(zp.pipeline, zp.binds, None, zp.groups, zp.threads)(bnd));
    assert(zeroed.error is None && zeroed.blob == cleared.blob);
    lemma_launch_shows(bnd, z, zp.binds, None, zp.groups, zp.threads, full, base);
    if bnd.skip_auto {
        lemma_shown_op(zeroed, crate::device::DeviceOp::Barrier, full, base);
    }
    assert(starts(zeroed.ops, cleared.ops)) by {
        reveal(starts);
    }
    lemma_starts_on(bnd.ops, zeroed.ops, cleared.ops);
    let x = shown(zeroed, full, base).launches[0];
    lemma_picked(x, zp.binds, 2);
    reveal_with_fuel(picked, 3);
    reveal_with_fuel(clear, 3);
    lemma_row_covers(x, z.thread_execution_width, (m * n) as usize);
}

/// The parts behind a cleared output.
proof fn lemma_parts_behind(
    cleared: BinderState,
    full: Seq<u8>,
    base: int,
    a: Operand,
    b: Operand,
    c: Operand,
    m: usize,
    n: usize,
    k: usize,
    tile: TileGeom,
    p: Pipeline,
    d: BinderState,
)
    requires
        indexable(m as int, n as int, k as int),
        0 <= base <= cleared.ops.len(),
        0 <= cleared.cursor,
        cleared.latched ==> shown(cleared, full, base).scene.table == Some(
            crate::device::PERSISTENT_TABLE,
        ),
        full.len() <= usize::MAX,
        d == partitioned(cleared.piped(p), a, b, c, m, n, k, tile, p, partitions(k)),
        d.error is None,
        starts(d.blob, full),
    ensures
        ({
            let from = shown(cleared, full, base).launches;
            let all = shown(d, full, base).launches;
            &&& cleared.error is None
            &&& starts(cleared.blob, d.blob)
            &&& starts(cleared.ops, d.ops)
            &&& cleared.ops.len() <= d.ops.len()
            &&& cleared.cursor <= d.cursor
            &&& d.arena == cleared.arena
            &&& all.len() == from.len() + partitions(k)
            &&& partitions(k) > 0
            &&& starts(from, all)
            &&& parts_seen(
                all,
                from.len() as int,
                p,
                a,
                b,
                c,
                m as int,
                n as int,
                k as int,
                tile,
                partitions(k),
            )
            &&& all[from.len() as int].scene.pipeline == Some(p)
            &&& all[from.len() as int].scene.fences >= shown(cleared, full, base).scene.fences
        }),
{
    let start = cleared.piped(p);
    crate::sizes::lemma_ceil_div_covers(k as int, 256);
    lemma_parts_keep(start, a, b, c, m, n, k, tile, p, partitions(k));
    assert(cleared.error is None && cleared.blob == start.blob && cleared.cursor == start.cursor);
    lemma_shown_op(
        cleared,
        crate::device::DeviceOp::SetPipeline { pipeline: p },
        full,
        base,
    );
    assert(starts(cleared.ops, start.ops)) by {
        reveal(starts);
    }
    lemma_parts_show(start, full, base, a, b, c, m, n, k, tile, p, partitions(k));
    lemma_starts_on(cleared.ops, start.ops, d.ops);
    let from = shown(cleared, full, base).launches;
    let all = shown(d, full, base).launches;
    assert(all[from.len() as int].scene.pipeline == Some(p)) by {
        reveal(parts_seen);
        assert(all[from.len() as int + 0] == all[from.len() as int]);
    }
}

/// A split multiplication as a binder has it.
proof fn lemma_split_shows(
    bnd: BinderState,
    full: Seq<u8>,
    base: int,
    a: Operand,
    b: Operand,
    c: Operand,
    m: usize,
    n: usize,
    k: usize,
    tile: TileGeom,
    p: Pipeline,
    z: Pipeline,
    zero_first: bool,
)
    requires
        indexable(m as int, n as int, k as int),
        c.count() == m * n,
        0 <= base <= bnd.ops.len(),
        !bnd.latched,
        0 <= bnd.cursor,
        shown(bnd, full, base) == crate::seen::nothing(),
        full.len() <= usize::MAX,
        split_fn(a, b, c, m, n, k, tile, p, z, zero_first)(bnd).error is None,
        starts(split_fn(a, b, c, m, n, k, tile, p, z, zero_first)(bnd).blob, full),
    ensures
        ({
            let d = split_fn(a, b, c, m, n, k, tile, p, z, zero_first)(bnd);
            &&& starts(bnd.ops, d.ops)
            &&& starts(bnd.blob, d.blob)
            &&& bnd.cursor <= d.cursor
            &&& d.arena == bnd.arena
            &&& split_launches(
                shown(d, full, base).launches,
                a,
                b,
                c,
                m as int,
                n as int,
                k as int,
                tile,
                p,
                z,
                zero_first,
            )
        }),
{
    let d = split_fn(a, b, c, m, n, k, tile, p, z, zero_first)(bnd);
    let cleared = if zero_first {
        if bnd.skip_auto {
            zero_pass(z, c).on(bnd).with_barrier()
        } else {
            zero_pass(z, c).on(bnd)
        }
    } else {
        bnd
    };
    assert(d == partitioned(cleared.piped(p), a, b, c, m, n, k, tile, p, partitions(k)));
    assert(m * n > 0) by (nonlinear_arith)
        requires
            m > 0,
            n > 0,
    ;
    crate::sizes::lemma_ceil_div_covers(k as int, 256);
    lemma_parts_keep(cleared.piped(p), a, b, c, m, n, k, tile, p, partitions(k));
    assert(cleared.error is None && cleared.piped(p).blob == cleared.blob);
    lemma_starts_on(cleared.blob, d.blob, full);
    if zero_first {
        lemma_zero_shows(bnd, full, base, c, m, n, z, cleared);
    } else {
        lemma_starts_itself(bnd.ops);
        lemma_starts_itself(bnd.blob);
    }
    lemma_parts_behind(cleared, full, base, a, b, c, m, n, k, tile, p, d);
    lemma_starts_on(bnd.ops, cleared.ops, d.ops);
    lemma_starts_on(bnd.blob, cleared.blob, d.blob);
    reveal(split_launches);
    if zero_first {
        let from = shown(cleared, full, base).launches;
        let all = shown(d, full, base).launches;
        assert(all[0] == from[0]) by {
            reveal(starts);
        }
    }
}

/// An accepted split multiplication works off every part of the contracted
/// dimension once.
pub proof fn law_split(
    rt: RuntimeState,
    kernel: Seq<char>,
    a: Operand,
    b: Operand,
    c: Operand,
    m: usize,
    n: usize,
    k: usize,
    tile: TileGeom,
    zero_first: bool,
)
    requires
        indexable(m as int, n as int, k as int),
        c.count() == m * n,
        split_step(rt, kernel, a, b, c, m, n, k, tile, zero_first).1 is None,
        in_view(rt, split_step(rt, kernel, a, b, c, m, n, k, tile, zero_first).0),
    ensures
        split_seen(
            rt,
            split_step(rt, kernel, a, b, c, m, n, k, tile, zero_first).0,
            kernel,
            a,
            b,
            c,
            m as int,
            n as int,
            k as int,
            tile,
            zero_first,
        ),
{
    let end = split_step(rt, kernel, a, b, c, m, n, k, tile, zero_first).0;
    law_pipeline(rt, kernel);
    let s0 = rt.piped(kernel).0;
    let p = rt.piped(kernel).1->Ok_0;
    law_pipeline(s0, "zero_f32"@);
    let r = s0.piped("zero_f32"@).0;
    let z = s0.piped("zero_f32"@).1->Ok_0;
    lemma_quietly_on(rt.ops, s0.ops, r.ops);
    let f = split_fn(a, b, c, m, n, k, tile, p, z, zero_first);
    lemma_split_scope(r, a, b, c, m, n, k, tile, p, z, zero_first);
    lemma_launches_after_quiet(rt, r, end);
    reveal(split_launches);
}

/// A split multiplication in its scope.
proof fn lemma_split_scope(
    r: RuntimeState,
    a: Operand,
    b: Operand,
    c: Operand,
    m: usize,
    n: usize,
    k: usize,
    tile: TileGeom,
    p: Pipeline,
    z: Pipeline,
    zero_first: bool,
)
    requires
        indexable(m as int, n as int, k as int),
        c.count() == m * n,
        !r.icb.encode_nop,
        0 <= r.cursor,
        r.encoded(None, split_fn(a, b, c, m, n, k, tile, p, z, zero_first)).1 is None,
        r.encoded(None, split_fn(a, b, c, m, n, k, tile, p, z, zero_first)).0.blob.len()
            <= usize::MAX,
    ensures
        ({
            let end = r.encoded(None, split_fn(a, b, c, m, n, k, tile, p, z, zero_first)).0;
            &&& starts(r.ops, end.ops)
            &&& split_launches(
                launches(r, end),
                a,
                b,
                c,
                m as int,
                n as int,
                k as int,
                tile,
                p,
                z,
                zero_first,
            )
        }),
{
    let f = split_fn(a, b, c, m, n, k, tile, p, z, zero_first);
    let bnd = open_binder(r, None);
    lemma_scoped_quiet(r, None);
    lemma_unscoped_quiet(r.scoped(None).0, f(bnd));
    let end = r.encoded(None, f).0;
    let full = end.blob;
    let base = base_of(r);
    assert(base <= bnd.ops.len()) by {
        reveal(quietly);
    }
    lemma_starts_itself(full);
    lemma_open_shows(r, full);
    lemma_split_shows(bnd, full, base, a, b, c, m, n, k, tile, p, z, zero_first);
    lemma_scope_shows(r, None, f);
}

/// What an opened scope did so far: nothing.
proof fn lemma_open_shows(rt: RuntimeState, full: Seq<u8>)
    ensures
        shown(open_binder(rt, None), full, base_of(rt)) == crate::seen::nothing(),
{
    lemma_scoped_quiet(rt, None);
    reveal(quietly);
    let b = open_binder(rt, None);
    crate::seen::lemma_seen_quiet(
        crate::seen::nothing(),
        b.ops,
        full,
        b.arena,
        base_of(rt),
        b.ops.len() as int,
    );
}

/// The parts only add to the payloads and keep the first failure.
proof fn lemma_parts_keep(
    start: BinderState,
    a: Operand,
    b: Operand,
    c: Operand,
    m: usize,
    n: usize,
    k: usize,
    tile: TileGeom,
    p: Pipeline,
    i: int,
)
    ensures
        starts(start.blob, partitioned(start, a, b, c, m, n, k, tile, p, i).blob),
        start.cursor <= partitioned(start, a, b, c, m, n, k, tile, p, i).cursor,
        partitioned(start, a, b, c, m, n, k, tile, p, i).error is None ==> start.error is None,
    decreases i,
{
    lemma_starts_itself(start.blob);
    if i > 0 {
        lemma_parts_keep(start, a, b, c, m, n, k, tile, p, i - 1);
        let s = partitioned(start, a, b, c, m, n, k, tile, p, i - 1);
        let t = if i > 1 && start.skip_auto {
            s.with_barrier()
        } else {
            s
        };
        let binds = partition_binds(a, b, c, m, n, k, tile, i - 1);
        lemma_blob_grows(t, binds, binds.len() as int);
        lemma_error_first(t, binds, binds.len() as int);
        let e = t.bound_all(binds);
        let d = e.dispatched(size3(tile.groups(m, n), 1, 1), size3(tile.threads(p), 1, 1));
        assert(d.blob == e.blob);
        assert(d.error is None ==> e.error is None);
        lemma_starts_on(start.blob, t.blob, d.blob);
    }
}

// ------------------------------------------------------- transposed layouts --

/// TensorOps kernels are asked for and there.
pub open spec fn tensorops(rt: RuntimeState, backend: GemmBackend) -> bool {
    backend == GemmBackend::TensorOps && crate::runtime::has_tensorops_of(rt.kernels)
}

/// The runtime asks for bf16 and has the kernels for it.
pub open spec fn in_bf16(rt: RuntimeState, backend: GemmBackend) -> bool {
    tensorops(rt, backend) && rt.settings.precision == crate::state::PrecisionMode::Bf16
}

/// Both factors are bf16.
pub open spec fn both_bf16(a: Operand, b: Operand) -> bool {
    a.dtype == DType::BF16 && b.dtype == DType::BF16
}

/// The contracted dimension is long and the output small.
pub open spec fn long(m: int, n: int, k: int) -> bool {
    k >= 2048 && m <= 384 && n <= 384 && (m <= 128 || n <= 128)
}

/// A is `k` by `m`, B is `k` by `n` and C is `m` by `n`.
pub open spec fn tall(rt: RuntimeState, a: Operand, b: Operand, c: Operand) -> bool {
    &&& a.shape.len() == 2
    &&& b.shape.len() == 2
    &&& a.shape[0] == b.shape[0]
    &&& c.shape == seq![a.shape[1], b.shape[1]]
    &&& matrices(rt, a, b, c, a.shape[1] as int, b.shape[1] as int, a.shape[0] as int)
}

/// A is `m` by `k`, B is `n` by `k` and C is `m` by `n`.
pub open spec fn wide(rt: RuntimeState, a: Operand, b: Operand, c: Operand) -> bool {
    &&& a.shape.len() == 2
    &&& b.shape.len() == 2
    &&& a.shape[1] == b.shape[1]
    &&& c.shape == seq![a.shape[0], b.shape[0]]
    &&& matrices(rt, a, b, c, a.shape[0] as int, b.shape[0] as int, a.shape[1] as int)
}

/// One tiled multiplication of this kernel.
pub open spec fn single_seen(
    before: RuntimeState,
    after: RuntimeState,
    a: Operand,
    b: Operand,
    c: Operand,
    kernel: Seq<char>,
    m: int,
    n: int,
    k: int,
    rows: int,
    cols: int,
    simdgroups: int,
) -> bool {
    let l = dispatch(before, after);
    &&& ran(before, after, kernel)
    &&& l.multiplies(a, b, c, m, n, k)
    &&& l.tiles(m, n, rows, cols, simdgroups, 6)
    &&& l.groups.height == 1
}

/// A product with the first factor transposed that overwrites C: in parts into a
/// zeroed output where the contracted dimension is long; else f32 factors into a
/// zeroed output, bf16 ones through a cooperative tile.
pub open spec fn tn_seen(
    before: RuntimeState,
    after: RuntimeState,
    a: Operand,
    b: Operand,
    c: Operand,
) -> bool {
    let m = a.shape[1] as int;
    let n = b.shape[1] as int;
    let k = a.shape[0] as int;
    let brain = both_bf16(a, b);
    &&& tall(before, a, b, c)
    &&& long(m, n, k) ==> split_seen(
        before,
        after,
        if brain {
            "matmul2d_tensorops_tn_splitk_bf16_f32"@
        } else {
            "matmul2d_tensorops_tn_splitk_f32"@
        },
        a,
        b,
        c,
        m,
        n,
        k,
        if brain {
            TileGeom::SplitBf16
        } else {
            TileGeom::F32
        },
        true,
    )
    &&& !long(m, n, k) && !brain ==> zeroed_seen(
        before,
        after,
        "matmul2d_tensorops_tn_f32"@,
        a,
        b,
        c,
        m,
        n,
        k,
        TileGeom::F32,
    )
    &&& !long(m, n, k) && brain ==> single_seen(
        before,
        after,
        a,
        b,
        c,
        "matmul2d_tensorops_tn_bf16_f32"@,
        m,
        n,
        k,
        128,
        64,
        4,
    )
}

/// One that adds to C: nothing is zeroed, and f32 factors come with the interior
/// flag in slot 8.
pub open spec fn tn_added_seen(
    before: RuntimeState,
    after: RuntimeState,
    a: Operand,
    b: Operand,
    c: Operand,
) -> bool {
    let m = a.shape[1] as int;
    let n = b.shape[1] as int;
    let k = a.shape[0] as int;
    let brain = both_bf16(a, b);
    &&& tall(before, a, b, c)
    &&& long(m, n, k) ==> split_seen(
        before,
        after,
        if brain {
            "matmul2d_tensorops_tn_splitk_bf16_f32"@
        } else {
            "matmul2d_tensorops_tn_splitk_f32"@
        },
        a,
        b,
        c,
        m,
        n,
        k,
        if brain {
            TileGeom::SplitBf16
        } else {
            TileGeom::F32
        },
        false,
    )
    &&& !long(m, n, k) && !brain ==> single_seen(
        before,
        after,
        a,
        b,
        c,
        "matmul2d_tensorops_tn_accum_f32"@,
        m,
        n,
        k,
        32,
        32,
        1,
    ) && dispatch(before, after).reads(8, interior_word(before))
    &&& !long(m, n, k) && brain ==> single_seen(
        before,
        after,
        a,
        b,
        c,
        "matmul2d_tensorops_tn_accum_bf16_f32"@,
        m,
        n,
        k,
        64,
        64,
        4,
    )
}

/// The interior flag as a word.
pub open spec fn interior_word(rt: RuntimeState) -> u32 {
    if rt.ab.gemm_value().0 {
        1
    } else {
        0
    }
}

/// A product with the second factor transposed that overwrites C.
pub open spec fn nt_seen(
    before: RuntimeState,
    after: RuntimeState,
    a: Operand,
    b: Operand,
    c: Operand,
) -> bool {
    let m = a.shape[0] as int;
    let n = b.shape[0] as int;
    let k = a.shape[1] as int;
    &&& wide(before, a, b, c)
    &&& if both_bf16(a, b) {
        single_seen(
            before,
            after,
            a,
            b,
            c,
            "matmul2d_tensorops_nt_bf16_f32"@,
            m,
            n,
            k,
            128,
            64,
            4,
        )
    } else {
        zeroed_seen(
            before,
            after,
            "matmul2d_tensorops_nt_f32"@,
            a,
            b,
            c,
            m,
            n,
            k,
            TileGeom::F32,
        )
    }
}

/// One that adds to C.
pub open spec fn nt_added_seen(
    before: RuntimeState,
    after: RuntimeState,
    a: Operand,
    b: Operand,
    c: Operand,
) -> bool {
    let m = a.shape[0] as int;
    let n = b.shape[0] as int;
    let k = a.shape[1] as int;
    &&& wide(before, a, b, c)
    &&& if both_bf16(a, b) {
        single_seen(
            before,
            after,
            a,
            b,
            c,
            "matmul2d_tensorops_nt_accum_bf16_f32"@,
            m,
            n,
            k,
            64,
            64,
            4,
        )
    } else {
        single_seen(
            before,
            after,
            a,
            b,
            c,
            "matmul2d_tensorops_nt_accum_f32"@,
            m,
            n,
            k,
            32,
            32,
            1,
        ) && dispatch(before, after).reads(8, interior_word(before))
    }
}

/// Reading the flags changes nothing of the dispatches.
proof fn lemma_flags_same(rt: RuntimeState, end: RuntimeState)
    ensures
        launches(rt, end) == launches(flags_read(rt), end),
{
    reveal(launches);
}

proof fn lemma_fused(
    rt: RuntimeState,
    kernel: Seq<char>,
    a: Operand,
    b: Operand,
    c: Operand,
    m: usize,
    n: usize,
    k: usize,
)
    requires
        indexable(m as int, n as int, k as int),
        ({
            let f = flags_read(rt);
            let step = tiled_step(
                f,
                kernel,
                a,
                b,
                c,
                m,
                n,
                k,
                TileGeom::F32,
                interior_bind(f),
                1,
            );
            step.1 is None && in_view(rt, step.0)
        }),
    ensures
        ({
            let f = flags_read(rt);
            let t = tiled_step(
                f,
                kernel,
                a,
                b,
                c,
                m,
                n,
                k,
                TileGeom::F32,
                interior_bind(f),
                1,
            ).0;
            &&& single_seen(rt, t, a, b, c, kernel, m as int, n as int, k as int, 32, 32, 1)
            &&& dispatch(rt, t).reads(8, interior_word(rt))
        }),
{
    let f = flags_read(rt);
    let extra = interior_bind(f);
    reveal_with_fuel(rising, 2);
    assert(crate::seen::from_slot(extra, 8));
    law_tiled(f, kernel, a, b, c, m, n, k, TileGeom::F32, extra, 1);
    let t = tiled_step(f, kernel, a, b, c, m, n, k, TileGeom::F32, extra, 1).0;
    lemma_flags_same(rt, t);
    reveal(carried);
    assert(carries(dispatch(rt, t), extra[0]));
    assert(f.ab.gemm_value() == rt.ab.gemm_value());
}

/// An accepted product with the first factor transposed, in f32, where TensorOps is
/// there.
pub broadcast proof fn law_tn_f32(
    rt: RuntimeState,
    a: Operand,
    b: Operand,
    c: Operand,
    backend: GemmBackend,
)
    requires
        tensorops(rt, backend),
        tn_f32_step(rt, a, b, c, backend).1 is None,
        in_view(rt, tn_f32_step(rt, a, b, c, backend).0),
    ensures
        tn_seen(rt, (#[trigger] tn_f32_step(rt, a, b, c, backend)).0, a, b, c),
{
    let (m, n, k, k2) = gemm_extents(a, b, Layout::TN);
    lemma_matrices(rt, a, b, c, Layout::TN, false);
    law_accepted_extents_match(a, b, c, Layout::TN, false);
    if crate::gemm::tiles::splits(m, n, k) {
        law_split(
            rt,
            "matmul2d_tensorops_tn_splitk_f32"@,
            a,
            b,
            c,
            m,
            n,
            k,
            TileGeom::F32,
            true,
        );
    } else {
        law_zeroed(rt, "matmul2d_tensorops_tn_f32"@, a, b, c, m, n, k, TileGeom::F32);
    }
}

/// So is one of bf16 factors under a bf16 policy.
pub broadcast proof fn law_tn_bf16(
    rt: RuntimeState,
    a: Operand,
    b: Operand,
    c: Operand,
    backend: GemmBackend,
)
    requires
        in_bf16(rt, backend),
        both_bf16(a, b),
        tn_train_step(rt, a, b, c, backend).1 is None,
        in_view(rt, tn_train_step(rt, a, b, c, backend).0),
    ensures
        tn_seen(rt, (#[trigger] tn_train_step(rt, a, b, c, backend)).0, a, b, c),
{
    let (m, n, k, k2) = gemm_extents(a, b, Layout::TN);
    lemma_matrices(rt, a, b, c, Layout::TN, true);
    law_accepted_extents_match(a, b, c, Layout::TN, true);
    if crate::gemm::tiles::splits(m, n, k) {
        law_split(
            rt,
            "matmul2d_tensorops_tn_splitk_bf16_f32"@,
            a,
            b,
            c,
            m,
            n,
            k,
            TileGeom::SplitBf16,
            true,
        );
    } else {
        lemma_plain_tile(rt, "matmul2d_tensorops_tn_bf16_f32"@, a, b, c, m, n, k, TileGeom::Coop);
    }
}

proof fn lemma_plain_tile(
    rt: RuntimeState,
    kernel: Seq<char>,
    a: Operand,
    b: Operand,
    c: Operand,
    m: usize,
    n: usize,
    k: usize,
    tile: TileGeom,
)
    requires
        indexable(m as int, n as int, k as int),
        ({
            let step = tiled_step(rt, kernel, a, b, c, m, n, k, tile, Seq::empty(), 1);
            step.1 is None && in_view(rt, step.0)
        }),
    ensures
        ({
            let t = tiled_step(rt, kernel, a, b, c, m, n, k, tile, Seq::empty(), 1).0;
            let (rows, cols, simdgroups) = tile_shape(tile);
            single_seen(
                rt,
                t,
                a,
                b,
                c,
                kernel,
                m as int,
                n as int,
                k as int,
                rows,
                cols,
                simdgroups,
            )
        }),
{
    law_tiled(rt, kernel, a, b, c, m, n, k, tile, Seq::empty(), 1);
}

/// An accepted product with the first factor transposed that is added to C, where
/// accumulating kernels are asked for and no cast is needed.
pub broadcast proof fn law_tn_added(
    rt: RuntimeState,
    a: Operand,
    b: Operand,
    c: Operand,
    backend: GemmBackend,
)
    requires
        tensorops(rt, backend),
        rt.ab.gemm_value().1,
        in_bf16(rt, backend) ==> both_bf16(a, b),
        tn_accum_step(rt, a, b, c, backend).1 is None,
        in_view(rt, tn_accum_step(rt, a, b, c, backend).0),
    ensures
        tn_added_seen(rt, (#[trigger] tn_accum_step(rt, a, b, c, backend)).0, a, b, c),
{
    let (m, n, k, k2) = gemm_extents(a, b, Layout::TN);
    let narrow = crate::gemm::operand::wants_bf16(rt, backend);
    let end = tn_accum_step(rt, a, b, c, backend).0;
    let f = flags_read(rt);
    lemma_matrices(rt, a, b, c, Layout::TN, narrow);
    law_accepted_extents_match(a, b, c, Layout::TN, narrow);
    lemma_flags_same(rt, end);
    if crate::gemm::tiles::splits(m, n, k) {
        if narrow {
            law_split(
                f,
                "matmul2d_tensorops_tn_splitk_bf16_f32"@,
                a,
                b,
                c,
                m,
                n,
                k,
                TileGeom::SplitBf16,
                false,
            );
        } else {
            law_split(
                f,
                "matmul2d_tensorops_tn_splitk_f32"@,
                a,
                b,
                c,
                m,
                n,
                k,
                TileGeom::F32,
                false,
            );
        }
    } else if narrow {
        lemma_plain_tile(
            f,
            "matmul2d_tensorops_tn_accum_bf16_f32"@,
            a,
            b,
            c,
            m,
            n,
            k,
            TileGeom::CoopSquare,
        );
    } else {
        lemma_fused(rt, "matmul2d_tensorops_tn_accum_f32"@, a, b, c, m, n, k);
    }
}

/// An accepted product with the second factor transposed, in f32, where TensorOps
/// is there.
pub broadcast proof fn law_nt_f32(
    rt: RuntimeState,
    a: Operand,
    b: Operand,
    c: Operand,
    backend: GemmBackend,
)
    requires
        tensorops(rt, backend),
        nt_f32_step(rt, a, b, c, backend).1 is None,
        in_view(rt, nt_f32_step(rt, a, b, c, backend).0),
    ensures
        nt_seen(rt, (#[trigger] nt_f32_step(rt, a, b, c, backend)).0, a, b, c),
{
    let (m, n, k, k2) = gemm_extents(a, b, Layout::NT);
    lemma_matrices(rt, a, b, c, Layout::NT, false);
    law_accepted_extents_match(a, b, c, Layout::NT, false);
    law_zeroed(rt, "matmul2d_tensorops_nt_f32"@, a, b, c, m, n, k, TileGeom::F32);
}

/// So is one of bf16 factors under a bf16 policy.
pub broadcast proof fn law_nt_bf16(
    rt: RuntimeState,
    a: Operand,
    b: Operand,
    c: Operand,
    backend: GemmBackend,
)
    requires
        in_bf16(rt, backend),
        both_bf16(a, b),
        nt_train_step(rt, a, b, c, backend).1 is None,
        in_view(rt, nt_train_step(rt, a, b, c, backend).0),
    ensures
        nt_seen(rt, (#[trigger] nt_train_step(rt, a, b, c, backend)).0, a, b, c),
{
    let (m, n, k, k2) = gemm_extents(a, b, Layout::NT);
    lemma_matrices(rt, a, b, c, Layout::NT, true);
    lemma_plain_tile(rt, "matmul2d_tensorops_nt_bf16_f32"@, a, b, c, m, n, k, TileGeom::Coop);
}

/// An accepted product with the second factor transposed that is added to C, where
/// accumulating kernels are asked for and no cast is needed.
pub broadcast proof fn law_nt_added(
    rt: RuntimeState,
    a: Operand,
    b: Operand,
    c: Operand,
    backend: GemmBackend,
)
    requires
        tensorops(rt, backend),
        rt.ab.gemm_value().1 || rt.ab.gemm_value().2,
        in_bf16(rt, backend) ==> both_bf16(a, b),
        nt_accum_step(rt, a, b, c, backend).1 is None,
        in_view(rt, nt_accum_step(rt, a, b, c, backend).0),
    ensures
        nt_added_seen(rt, (#[trigger] nt_accum_step(rt, a, b, c, backend)).0, a, b, c),
{
    let (m, n, k, k2) = gemm_extents(a, b, Layout::NT);
    let narrow = crate::gemm::operand::wants_bf16(rt, backend);
    let end = nt_accum_step(rt, a, b, c, backend).0;
    let f = flags_read(rt);
    lemma_matrices(rt, a, b, c, Layout::NT, narrow);
    lemma_flags_same(rt, end);
    if narrow {
        lemma_plain_tile(
            f,
            "matmul2d_tensorops_nt_accum_bf16_f32"@,
            a,
            b,
            c,
            m,
            n,
            k,
            TileGeom::CoopSquare,
        );
    } else {
        lemma_fused(rt, "matmul2d_tensorops_nt_accum_f32"@, a, b, c, m, n, k);
    }
}

} // verus!
