//! Flash attention: decode split over the KV sequence, row-parallel prefill,
//! and the tiled kernels they replace.

use vstd::prelude::*;

use crate::device::{mtl_size, size3, Pipeline};
use crate::dispatch::{
    geometry_message, launch_groups, launch_pair, pair_fn, validate_dispatch_geometry, Bind,
    PassView,
};
use crate::nn::attention::{
    attn_kernel_for, attn_kv_capacity_for, chunk_of, decode_chunk_for, decode_entries,
    decode_head_block_for, decode_lanes_for, decode_names, groups_of, has_kernel, head_block_of,
    kv_problem, lanes_of, positions, route, rows_entry, rows_groups_for, rows_lanes_for, rows_name,
    AttnDims, AttnHeadDim, AttnKernel, AttnOperands, DecodeChunk, DecodeHeadBlock, RowsGroups,
    RowsLanes, DECODE_REDUCE_THREADS,
};
use crate::nn::check::{at, bind_list, buf, elems, encodes, float, float_at, word, word_at};
use crate::nn::gemv::{flag, flag_word};
use crate::runtime::GpuRuntime;
use crate::sizes::{ceil_div, div_ceil, least, max_usize, min_usize, most};
use crate::state::RuntimeState;
use crate::tensor::{BufferKind, GpuBuffer, Storage};
use crate::text::{decimal, first, owned, reports, unless, Msg};
use crate::nn::attention_laws::{
    decode_seen, gets_qkv, global_seen, law_decode, law_global_tiled, law_rows, law_swa_tiled,
    routed_seen, rows_seen, swa_seen,
};
use crate::seen::{dispatch, in_view};

verus! {

/// The buffers of a call.
pub open spec fn operands(
    q: Storage,
    k: Storage,
    v: Storage,
    o: Storage,
    tkv: Storage,
    q_pos_offset: Storage,
    kv_pos_offset: Storage,
) -> AttnOperands {
    AttnOperands { q, k, v, o, tkv, q_pos_offset, kv_pos_offset }
}

// --------------------------------------------------------------- decode ----

/// Tuning of a decode call: chunk size, lanes per key, and where given the
/// reduce pass's threads and the head block.
#[derive(Clone, Copy, Debug, PartialEq, Eq, Structural)]
pub struct DecodeTuning {
    pub chunk: DecodeChunk,
    pub lanes: RowsLanes,
    pub reduce_threads: Option<usize>,
    pub head_block: Option<DecodeHeadBlock>,
}

/// The tuning chosen for a head dimension.
pub open spec fn default_tuning(d: u32) -> DecodeTuning {
    DecodeTuning {
        chunk: chunk_of(d),
        lanes: lanes_of(d),
        reduce_threads: None,
        head_block: None,
    }
}

/// Simdgroups per threadgroup of the partial pass: the first of the asked
/// policy, the KV group and a single head that serves the shape.
pub open spec fn partial_width(dims: AttnDims, d: u32, head_block: Option<DecodeHeadBlock>) -> usize {
    let heads = most(dims.heads as int, 1) as usize;
    let group = most(dims.heads as int / most(dims.heads_kv as int, 1), 1) as usize;
    let want = match head_block {
        Some(b) => b,
        None => head_block_of(d),
    };
    match want.width(heads, group) {
        Some(n) => n,
        None => match DecodeHeadBlock::Group.width(heads, group) {
            Some(n) => n,
            None => 1,
        },
    }
}

fn partial_simdgroups(dims: &AttnDims, d: u32, head_block: Option<DecodeHeadBlock>) -> (r: usize)
    ensures
        r == partial_width(*dims, d, head_block),
        1 <= r <= 32,
{
    let heads: usize = max_usize(dims.heads as usize, 1);
    let kv: u32 = if dims.heads_kv == 0 {
        1
    } else {
        dims.heads_kv
    };
    let group: usize = max_usize((dims.heads / kv) as usize, 1);
    let want = match head_block {
        Some(b) => b,
        None => decode_head_block_for(d),
    };
    match want.simdgroups(heads, group) {
        Some(n) => n,
        None => match DecodeHeadBlock::Group.simdgroups(heads, group) {
            Some(n) => n,
            None => 1,
        },
    }
}

/// Threads of the reduce pass: no more than the head dimension, at least one
/// simdgroup.
pub open spec fn reduce_width(d: u32, threads: Option<usize>) -> usize {
    most(
        least(
            match threads {
                Some(t) => t as int,
                None => 256,
            },
            d as int,
        ),
        32,
    ) as usize
}

/// Chunks the fixed capacity is split into.
pub open spec fn chunks_of(kv_capacity: int, chunk: DecodeChunk) -> int {
    most(ceil_div(kv_capacity, chunk.len() as int), 1)
}

/// The chunks cover every position below the capacity, each but the last in
/// full, so that every partial the reduce pass reads was written.
pub proof fn law_chunks_cover_capacity(kv_capacity: int, chunk: DecodeChunk, position: int)
    requires
        0 <= position < kv_capacity,
    ensures
        0 <= position / chunk.len() as int,
        (position / chunk.len() as int) < chunks_of(kv_capacity, chunk),
        (chunks_of(kv_capacity, chunk) - 1) * chunk.len() < kv_capacity,
{
    crate::sizes::lemma_ceil_div_covers(kv_capacity, chunk.len() as int);
    let c = chunk.len() as int;
    let n = ceil_div(kv_capacity, c);
    assert(0 <= position / c < n && (n - 1) * c < kv_capacity && n >= 1) by (nonlinear_arith)
        requires
            c > 0,
            0 <= position < kv_capacity,
            n * c >= kv_capacity,
            (n - 1) * c < kv_capacity,
    ;
}

/// Floats of the partial results: per head and chunk an output row, a maximum
/// and a sum.
pub open spec fn scratch_elems(dims: AttnDims, d: u32, kv_capacity: int, chunk: DecodeChunk) -> int {
    dims.batch * dims.heads * chunks_of(kv_capacity, chunk) * (d + 2)
}

/// Where the partial results overflow.
pub open spec fn scratch_problem(
    dims: AttnDims,
    d: u32,
    kv_capacity: int,
    chunk: DecodeChunk,
) -> Option<Seq<char>> {
    first(
        unless(
            dims.batch * dims.heads * chunks_of(kv_capacity, chunk) <= usize::MAX && scratch_elems(
                dims,
                d,
                kv_capacity,
                chunk,
            ) <= usize::MAX,
            "flash_attn_decode: partial scratch size overflows"@,
        ),
        unless(
            scratch_elems(dims, d, kv_capacity, chunk) * 4 <= usize::MAX,
            "flash_attn_decode: partial scratch byte size overflows"@,
        ),
    )
}

fn scratch_bytes(bh: usize, chunks: usize, stride: usize) -> (r: Result<usize, String>)
    ensures
        reports(
            r,
            first(
                unless(
                    bh * chunks <= usize::MAX && bh * chunks * stride <= usize::MAX,
                    "flash_attn_decode: partial scratch size overflows"@,
                ),
                unless(
                    bh * chunks * stride * 4 <= usize::MAX,
                    "flash_attn_decode: partial scratch byte size overflows"@,
                ),
            ),
        ),
        r matches Ok(n) ==> n == bh * chunks * stride * 4,
{
    let rows: usize = match bh.checked_mul(chunks) {
        Some(n) => n,
        None => {
            return Err(owned("flash_attn_decode: partial scratch size overflows"));
        },
    };
    let elems: usize = match rows.checked_mul(stride) {
        Some(n) => n,
        None => {
            return Err(owned("flash_attn_decode: partial scratch size overflows"));
        },
    };
    match elems.checked_mul(4) {
        Some(n) => Ok(n),
        None => Err(owned("flash_attn_decode: partial scratch byte size overflows")),
    }
}

/// What refuses a decode call before anything is allocated.
pub open spec fn decode_problem(
    rt: u64,
    x: AttnOperands,
    dims: AttnDims,
    d: u32,
    kv_capacity: usize,
    out_bf16: bool,
) -> Option<Seq<char>> {
    first(
        unless(
            has_kernel(d),
            "flash_attn_decode: head dim "@ + decimal(d as nat)
                + " has no decode kernel (128, 256 or 512)"@,
        ),
        first(
            unless(
                dims.tq == 1,
                "flash_attn_decode is the Tq == 1 path; got Tq = "@ + decimal(dims.tq as nat)
                    + ". Use flash_attn_swa or flash_attn_global_h512 for prefill."@,
            ),
            first(
                x.problem(rt, dims, d, "flash_attn_decode"@, out_bf16),
                first(
                    unless(
                        kv_capacity <= u32::MAX,
                        "flash_attn_decode: kv_capacity exceeds the device u32 range"@,
                    ),
                    unless(
                        kv_capacity != 0,
                        "flash_attn_decode: kv_capacity must be at least 1"@,
                    ),
                ),
            ),
        ),
    )
}

/// What refuses a decode call with work to do.
pub open spec fn decode_late_problem(
    x: AttnOperands,
    dims: AttnDims,
    d: u32,
    kv_capacity: usize,
    chunk: DecodeChunk,
) -> Option<Seq<char>> {
    first(
        unless(
            kv_capacity == x.kv_capacity(dims, d),
            "flash_attn_decode: declared kv_capacity "@ + decimal(kv_capacity as nat)
                + " does not match the fixed K/V layout capacity "@ + decimal(
                x.kv_capacity(dims, d) as nat,
            ),
        ),
        scratch_problem(dims, d, kv_capacity as int, chunk),
    )
}

/// Binds of the partial pass.
pub open spec fn partial_binds(
    x: AttnOperands,
    scratch: Storage,
    dims: AttnDims,
    kv_capacity: u32,
) -> Seq<Bind> {
    seq![
        at(x.q, 0),
        at(x.k, 1),
        at(x.v, 2),
        at(scratch, 3),
        word_at(dims.batch, 4),
        at(x.tkv, 6),
        word_at(dims.heads, 7),
        word_at(dims.heads_kv, 8),
        word_at(dims.window, 9),
        float_at(dims.scale, 10),
        at(x.q_pos_offset, 11),
        at(x.kv_pos_offset, 12),
        word_at(kv_capacity, 13),
    ]
}

/// Binds of the reduce pass.
pub open spec fn reduce_binds(
    x: AttnOperands,
    scratch: Storage,
    dims: AttnDims,
    kv_capacity: u32,
    out_bf16: bool,
) -> Seq<Bind> {
    seq![
        at(scratch, 0),
        at(x.o, 1),
        word_at(dims.batch, 2),
        at(x.tkv, 3),
        word_at(dims.heads, 4),
        word_at(flag(out_bf16), 5),
        word_at(kv_capacity, 6),
    ]
}

/// The partial pass over a looked-up pipeline.
pub open spec fn partial_pass(
    p: Pipeline,
    x: AttnOperands,
    scratch: Storage,
    dims: AttnDims,
    d: u32,
    kv_capacity: u32,
    tuning: DecodeTuning,
) -> PassView {
    let sgs = partial_width(dims, d, tuning.head_block);
    PassView {
        pipeline: p,
        binds: partial_binds(x, scratch, dims, kv_capacity),
        groups: size3(
            chunks_of(kv_capacity as int, tuning.chunk) as usize,
            (dims.batch * (most(dims.heads as int, 1) / sgs as int)) as usize,
            1,
        ),
        threads: size3((sgs * 32) as usize, 1, 1),
    }
}

/// The reduce pass over a looked-up pipeline.
pub open spec fn reduce_pass(
    p: Pipeline,
    x: AttnOperands,
    scratch: Storage,
    dims: AttnDims,
    d: u32,
    kv_capacity: u32,
    tuning: DecodeTuning,
    out_bf16: bool,
) -> PassView {
    PassView {
        pipeline: p,
        binds: reduce_binds(x, scratch, dims, kv_capacity, out_bf16),
        groups: size3(1, (dims.batch * dims.heads) as usize, 1),
        threads: size3(reduce_width(d, tuning.reduce_threads), 1, 1),
    }
}

/// Both passes over one scratch buffer: nothing is encoded unless the device
/// accepts both geometries.
pub open spec fn decode_passes(
    rt: RuntimeState,
    x: AttnOperands,
    scratch: Storage,
    dims: AttnDims,
    d: u32,
    kv_capacity: u32,
    tuning: DecodeTuning,
    out_bf16: bool,
) -> (RuntimeState, Option<Seq<char>>) {
    let names = decode_names(d, tuning.chunk, tuning.lanes);
    let (s, p) = rt.piped(names.0);
    match p {
        Err(m) => (s, Some(m)),
        Ok(p) => {
            let (t, c) = s.piped(names.1);
            match c {
                Err(m) => (t, Some(m)),
                Ok(c) => {
                    let one = partial_pass(p, x, scratch, dims, d, kv_capacity, tuning);
                    let two = reduce_pass(c, x, scratch, dims, d, kv_capacity, tuning, out_bf16);
                    if !one.fits() || !two.fits() {
                        (t, Some(geometry_message()))
                    } else {
                        t.encoded(None, pair_fn(one, two))
                    }
                },
            }
        },
    }
}

fn run_decode_passes(
    rt: &mut GpuRuntime,
    x: &AttnOperands,
    scratch: &Storage,
    dims: &AttnDims,
    d: u32,
    kv_capacity: u32,
    tuning: &DecodeTuning,
    partial_entry: &str,
    reduce_entry: &str,
    out_bf16: bool,
) -> (r: Result<(), String>)
    requires
        old(rt).inv(),
        (partial_entry@, reduce_entry@) == decode_names(d, tuning.chunk, tuning.lanes),
        dims.batch * dims.heads <= u32::MAX,
    ensures
        final(rt).inv(),
        encodes(
            old(rt)@,
            final(rt)@,
            r,
            decode_passes(
                old(rt)@,
                *x,
                *scratch,
                *dims,
                d,
                kv_capacity,
                *tuning,
                out_bf16,
            ),
        ),
{
    let heads: usize = max_usize(dims.heads as usize, 1);
    let sgs: usize = partial_simdgroups(dims, d, tuning.head_block);
    proof {
        vstd::arithmetic::div_mod::lemma_div_is_ordered_by_denominator(heads as int, 1, sgs as int);
        let h = heads as int / sgs as int;
        assert(0 <= dims.batch * h <= u32::MAX) by (nonlinear_arith)
            requires
                0 <= h <= heads,
                heads == dims.heads || heads == 1,
                dims.batch <= u32::MAX,
                dims.batch * dims.heads <= u32::MAX,
        ;
    }
    let partial_y: usize = dims.batch as usize * (heads / sgs);
    let bh: usize = dims.batch as usize * dims.heads as usize;
    let chunks: usize = max_usize(div_ceil(kv_capacity as usize, tuning.chunk.keys()), 1);
    let p = rt.pipeline(partial_entry)?;
    let c = rt.pipeline(reduce_entry)?;
    let asked: usize = match tuning.reduce_threads {
        Some(t) => t,
        None => DECODE_REDUCE_THREADS,
    };
    let width: usize = max_usize(min_usize(asked, d as usize), 32);
    let partial_groups = mtl_size(chunks, partial_y, 1);
    let partial_threads = mtl_size(sgs * 32, 1, 1);
    let reduce_groups = mtl_size(1, bh, 1);
    let reduce_threads = mtl_size(width, 1, 1);
    validate_dispatch_geometry(partial_groups, partial_threads, Some(p.max_threads))?;
    validate_dispatch_geometry(reduce_groups, reduce_threads, Some(c.max_threads))?;
    let p_binds = [
        buf(&x.q, 0),
        buf(&x.k, 1),
        buf(&x.v, 2),
        buf(scratch, 3),
        word(dims.batch, 4),
        buf(&x.tkv, 6),
        word(dims.heads, 7),
        word(dims.heads_kv, 8),
        word(dims.window, 9),
        float(dims.scale, 10),
        buf(&x.q_pos_offset, 11),
        buf(&x.kv_pos_offset, 12),
        word(kv_capacity, 13),
    ];
    assert(p_binds@ =~= partial_binds(*x, *scratch, *dims, kv_capacity));
    let c_binds = [
        buf(scratch, 0),
        buf(&x.o, 1),
        word(dims.batch, 2),
        buf(&x.tkv, 3),
        word(dims.heads, 4),
        word(flag_word(out_bf16), 5),
        word(kv_capacity, 6),
    ];
    assert(c_binds@ =~= reduce_binds(*x, *scratch, *dims, kv_capacity, out_bf16));
    launch_pair(
        rt,
        &p,
        &p_binds,
        partial_groups,
        partial_threads,
        &c,
        &c_binds,
        reduce_groups,
        reduce_threads,
    )
}

/// Effect of [`flash_attn_decode_with_chunk`]. The scratch is retired whatever
/// the passes do.
pub open spec fn decode_step(
    rt: RuntimeState,
    x: AttnOperands,
    dims: AttnDims,
    d: u32,
    kv_capacity: usize,
    tuning: DecodeTuning,
    out_bf16: bool,
) -> (RuntimeState, Option<Seq<char>>) {
    let bytes = scratch_elems(dims, d, kv_capacity as int, tuning.chunk) * 4;
    let (t, scratch) = rt.allocated(bytes as usize, BufferKind::Cold);
    rt.guarded(
        decode_problem(rt.id, x, dims, d, kv_capacity, out_bf16),
        dims.batch * dims.heads == 0,
        decode_late_problem(x, dims, d, kv_capacity, tuning.chunk),
        match scratch {
            Err(m) => (t, Some(m)),
            Ok(b) => {
                let (u, problem) = decode_passes(
                    t,
                    x,
                    b,
                    dims,
                    d,
                    kv_capacity as u32,
                    tuning,
                    out_bf16,
                );
                (u.retired(b), problem)
            },
        },
    )
}

/// The checks of a decode call, in order: the kernel names, or the refusal.
fn check_decode(
    rt: u64,
    x: &AttnOperands,
    dims: &AttnDims,
    d: u32,
    kv_capacity: usize,
    tuning: &DecodeTuning,
    out_bf16: bool,
) -> (r: Result<(String, String, u32), String>)
    ensures
        reports(r, decode_problem(rt, *x, *dims, d, kv_capacity, out_bf16)),
        r matches Ok(n) ==> {
            &&& (n.0@, n.1@) == decode_names(d, tuning.chunk, tuning.lanes)
            &&& n.2 == x.kv_capacity(*dims, d)
            &&& dims.batch * dims.heads <= u32::MAX
        },
{
    let (partial_entry, reduce_entry) = match decode_entries(d, tuning.chunk, tuning.lanes) {
        Some(names) => names,
        None => {
            return Err(
                Msg::new("flash_attn_decode: head dim ").num(d as usize).text(
                    " has no decode kernel (128, 256 or 512)",
                ).done(),
            );
        },
    };
    if dims.tq != 1 {
        return Err(
            Msg::new("flash_attn_decode is the Tq == 1 path; got Tq = ").num(
                dims.tq as usize,
            ).text(". Use flash_attn_swa or flash_attn_global_h512 for prefill.").done(),
        );
    }
    let actual: u32 = x.accept(rt, dims, d, "flash_attn_decode", out_bf16)?;
    if kv_capacity > u32::MAX as usize {
        return Err(owned("flash_attn_decode: kv_capacity exceeds the device u32 range"));
    }
    if kv_capacity == 0 {
        return Err(owned("flash_attn_decode: kv_capacity must be at least 1"));
    }
    Ok((partial_entry, reduce_entry, actual))
}

/// The work of [`flash_attn_decode_with_chunk`].
fn decode_in_chunks(
    rt: &mut GpuRuntime,
    q: &GpuBuffer,
    k: &GpuBuffer,
    v: &GpuBuffer,
    o: &GpuBuffer,
    tkv: &GpuBuffer,
    q_pos_offset: &GpuBuffer,
    kv_pos_offset: &GpuBuffer,
    dims: AttnDims,
    head_dim: u32,
    kv_capacity: usize,
    chunk: DecodeChunk,
    lanes: RowsLanes,
    reduce_threads: Option<usize>,
    head_block: Option<DecodeHeadBlock>,
    out_bf16: bool,
) -> (r: Result<(), String>)
    requires
        old(rt).inv(),
    ensures
        final(rt).inv(),
        encodes(
            old(rt)@,
            final(rt)@,
            r,
            decode_step(
                old(rt)@,
                operands(q@, k@, v@, o@, tkv@, q_pos_offset@, kv_pos_offset@),
                dims,
                head_dim,
                kv_capacity,
                (DecodeTuning { chunk, lanes, reduce_threads, head_block }),
                out_bf16,
            ),
        ),
{
    let q = &q.at();
    let k = &k.at();
    let v = &v.at();
    let o = &o.at();
    let tkv = &tkv.at();
    let q_pos_offset = &q_pos_offset.at();
    let kv_pos_offset = &kv_pos_offset.at();
    let x = AttnOperands {
        q: *q,
        k: *k,
        v: *v,
        o: *o,
        tkv: *tkv,
        q_pos_offset: *q_pos_offset,
        kv_pos_offset: *kv_pos_offset,
    };
    let tuning = DecodeTuning { chunk, lanes, reduce_threads, head_block };
    let id: u64 = rt.id();
    let (partial_entry, reduce_entry, actual): (String, String, u32) = check_decode(
        id,
        &x,
        &dims,
        head_dim,
        kv_capacity,
        &tuning,
        out_bf16,
    )?;
    let bh: usize = elems(dims.batch, dims.heads, "flash_attn_decode B*H")?;
    if bh == 0 {
        return Ok(());
    }
    if kv_capacity != actual as usize {
        return Err(
            Msg::new("flash_attn_decode: declared kv_capacity ").num(kv_capacity).text(
                " does not match the fixed K/V layout capacity ",
            ).num(actual as usize).done(),
        );
    }
    let chunks: usize = max_usize(div_ceil(kv_capacity, chunk.keys()), 1);
    let bytes: usize = scratch_bytes(bh, chunks, head_dim as usize + 2)?;
    let scratch = rt.alloc_buffer(bytes)?;
    let r = run_decode_passes(
        rt,
        &x,
        &scratch.at(),
        &dims,
        head_dim,
        kv_capacity as u32,
        &tuning,
        partial_entry.as_str(),
        reduce_entry.as_str(),
        out_bf16,
    );
    rt.recycle_buffer(scratch);
    r
}

/// [`flash_attn_decode`] with an explicit tuning. A head block that does not
/// divide the heads or does not fit a threadgroup steps down.
pub fn flash_attn_decode_with_chunk(
    rt: &mut GpuRuntime,
    q: &GpuBuffer,
    k: &GpuBuffer,
    v: &GpuBuffer,
    o: &GpuBuffer,
    tkv: &GpuBuffer,
    q_pos_offset: &GpuBuffer,
    kv_pos_offset: &GpuBuffer,
    dims: AttnDims,
    head_dim: u32,
    kv_capacity: usize,
    chunk: DecodeChunk,
    lanes: RowsLanes,
    reduce_threads: Option<usize>,
    head_block: Option<DecodeHeadBlock>,
    out_bf16: bool,
) -> (r: Result<(), String>)
    requires
        old(rt).inv(),
    ensures
        final(rt).inv(),
        encodes(
            old(rt)@,
            final(rt)@,
            r,
            decode_step(
                old(rt)@,
                operands(q@, k@, v@, o@, tkv@, q_pos_offset@, kv_pos_offset@),
                dims,
                head_dim,
                kv_capacity,
                (DecodeTuning { chunk, lanes, reduce_threads, head_block }),
                out_bf16,
            ),
        ),
        r is Ok && dims.batch > 0 && dims.heads > 0 && in_view(old(rt)@, final(rt)@) ==> decode_seen(
            old(rt)@,
            final(rt)@,
            operands(q@, k@, v@, o@, tkv@, q_pos_offset@, kv_pos_offset@),
            dims,
            head_dim,
            kv_capacity,
            (DecodeTuning { chunk, lanes, reduce_threads, head_block }),
            out_bf16,
        ),
{
    broadcast use law_decode;

    decode_in_chunks(
        rt,
        q,
        k,
        v,
        o,
        tkv,
        q_pos_offset,
        kv_pos_offset,
        dims,
        head_dim,
        kv_capacity,
        chunk,
        lanes,
        reduce_threads,
        head_block,
        out_bf16,
    )
}

/// Single-query attention, split over the KV sequence. `kv_capacity` is the
/// declared fixed capacity of K and V; it is checked against their sizes before
/// it bounds the grid. `window == 0` selects the global rule.
pub fn flash_attn_decode(
    rt: &mut GpuRuntime,
    q: &GpuBuffer,
    k: &GpuBuffer,
    v: &GpuBuffer,
    o: &GpuBuffer,
    tkv: &GpuBuffer,
    q_pos_offset: &GpuBuffer,
    kv_pos_offset: &GpuBuffer,
    dims: AttnDims,
    head_dim: u32,
    kv_capacity: usize,
    out_bf16: bool,
) -> (r: Result<(), String>)
    requires
        old(rt).inv(),
    ensures
        final(rt).inv(),
        encodes(
            old(rt)@,
            final(rt)@,
            r,
            decode_step(
                old(rt)@,
                operands(q@, k@, v@, o@, tkv@, q_pos_offset@, kv_pos_offset@),
                dims,
                head_dim,
                kv_capacity,
                default_tuning(head_dim),
                out_bf16,
            ),
        ),
        r is Ok && dims.batch > 0 && dims.heads > 0 && in_view(old(rt)@, final(rt)@) ==> decode_seen(
            old(rt)@,
            final(rt)@,
            operands(q@, k@, v@, o@, tkv@, q_pos_offset@, kv_pos_offset@),
            dims,
            head_dim,
            kv_capacity,
            default_tuning(head_dim),
            out_bf16,
        ),
{
    flash_attn_decode_with_chunk(
        rt,
        q,
        k,
        v,
        o,
        tkv,
        q_pos_offset,
        kv_pos_offset,
        dims,
        head_dim,
        kv_capacity,
        decode_chunk_for(head_dim),
        decode_lanes_for(head_dim),
        None,
        None,
        out_bf16,
    )
}

// ----------------------------------------------------------------- rows ----

/// Query rows of one threadgroup.
pub open spec fn rows_per_group(lanes: RowsLanes, groups: RowsGroups) -> int {
    groups.len() * (32int / lanes.len() as int)
}

proof fn lemma_rows_per_group(lanes: RowsLanes, groups: RowsGroups)
    ensures
        8 <= rows_per_group(lanes, groups) <= 128,
        1 <= 32int / lanes.len() as int <= 4,
{
    assert(32int / 8 == 4 && 32int / 16 == 2 && 32int / 32 == 1);
    let n = 32int / lanes.len() as int;
    assert(n == 1 || n == 2 || n == 4);
    assert(8 <= groups.len() * n <= 128) by (nonlinear_arith)
        requires
            8 <= groups.len() <= 32,
            n == 1 || n == 2 || n == 4,
    ;
}

/// Binds of a row kernel.
pub open spec fn rows_binds(
    x: AttnOperands,
    dims: AttnDims,
    kv_capacity: u32,
    out_bf16: bool,
) -> Seq<Bind> {
    seq![
        at(x.q, 0),
        at(x.k, 1),
        at(x.v, 2),
        at(x.o, 3),
        word_at(dims.batch, 4),
        word_at(dims.tq, 5),
        at(x.tkv, 6),
        word_at(dims.heads, 7),
        word_at(dims.heads_kv, 8),
        word_at(dims.window, 9),
        float_at(dims.scale, 10),
        at(x.q_pos_offset, 11),
        at(x.kv_pos_offset, 12),
        word_at(flag(out_bf16), 13),
        word_at(kv_capacity, 14),
    ]
}

/// Effect of [`flash_attn_rows_with_lanes`].
pub open spec fn rows_step(
    rt: RuntimeState,
    x: AttnOperands,
    dims: AttnDims,
    d: u32,
    lanes: RowsLanes,
    groups: RowsGroups,
    out_bf16: bool,
) -> (RuntimeState, Option<Seq<char>>) {
    rt.guarded(
        first(
            unless(
                has_kernel(d),
                "flash_attn_rows: head dim "@ + decimal(d as nat)
                    + " has no kernel (128, 256 or 512)"@,
            ),
            x.problem(rt.id, dims, d, "flash_attn_rows"@, out_bf16),
        ),
        false,
        None,
        rt.kernel_groups(
            rows_name(d, lanes, groups),
            rows_binds(x, dims, x.kv_capacity(dims, d) as u32, out_bf16),
            None,
            ceil_div(dims.tq as int, rows_per_group(lanes, groups)) as usize,
            (dims.batch * dims.heads) as usize,
            |p: Pipeline| (groups.len() * 32) as usize,
        ),
    )
}

/// The grid of a row kernel covers every query row.
pub proof fn law_rows_grid_covers_queries(tq: u32, lanes: RowsLanes, groups: RowsGroups)
    ensures
        rows_per_group(lanes, groups) > 0,
        ceil_div(tq as int, rows_per_group(lanes, groups)) * rows_per_group(lanes, groups) >= tq,
{
    lemma_rows_per_group(lanes, groups);
    crate::sizes::lemma_ceil_div_covers(tq as int, rows_per_group(lanes, groups));
}

/// [`flash_attn_rows`] with explicit lanes and simdgroups.
pub fn flash_attn_rows_with_lanes(
    rt: &mut GpuRuntime,
    q: &GpuBuffer,
    k: &GpuBuffer,
    v: &GpuBuffer,
    o: &GpuBuffer,
    tkv: &GpuBuffer,
    q_pos_offset: &GpuBuffer,
    kv_pos_offset: &GpuBuffer,
    dims: AttnDims,
    head_dim: u32,
    lanes: RowsLanes,
    groups: RowsGroups,
    out_bf16: bool,
) -> (r: Result<(), String>)
    requires
        old(rt).inv(),
    ensures
        final(rt).inv(),
        encodes(
            old(rt)@,
            final(rt)@,
            r,
            rows_step(
                old(rt)@,
                operands(q@, k@, v@, o@, tkv@, q_pos_offset@, kv_pos_offset@),
                dims,
                head_dim,
                lanes,
                groups,
                out_bf16,
            ),
        ),
        r is Ok && dims.batch > 0 && dims.heads > 0 && dims.tq > 0 && in_view(old(rt)@, final(rt)@) ==> rows_seen(
            old(rt)@,
            final(rt)@,
            operands(q@, k@, v@, o@, tkv@, q_pos_offset@, kv_pos_offset@),
            dims,
            head_dim,
            lanes,
            groups,
            out_bf16,
        ),
{
    broadcast use law_rows;

    let q = &q.at();
    let k = &k.at();
    let v = &v.at();
    let o = &o.at();
    let tkv = &tkv.at();
    let q_pos_offset = &q_pos_offset.at();
    let kv_pos_offset = &kv_pos_offset.at();
    let x = AttnOperands {
        q: *q,
        k: *k,
        v: *v,
        o: *o,
        tkv: *tkv,
        q_pos_offset: *q_pos_offset,
        kv_pos_offset: *kv_pos_offset,
    };
    let entry = match rows_entry(head_dim, lanes, groups) {
        Some(e) => e,
        None => {
            return Err(
                Msg::new("flash_attn_rows: head dim ").num(head_dim as usize).text(
                    " has no kernel (128, 256 or 512)",
                ).done(),
            );
        },
    };
    let id: u64 = rt.id();
    let kv_capacity: u32 = x.accept(id, &dims, head_dim, "flash_attn_rows", out_bf16)?;
    proof {
        lemma_rows_per_group(lanes, groups);
    }
    let groups_x: usize = div_ceil(dims.tq as usize, groups.count() * (32 / lanes.width()));
    let groups_y: usize = elems(dims.batch, dims.heads, "flash_attn_rows grid")?;
    let p = rt.pipeline(entry.as_str())?;
    let binds = [
        buf(&x.q, 0),
        buf(&x.k, 1),
        buf(&x.v, 2),
        buf(&x.o, 3),
        word(dims.batch, 4),
        word(dims.tq, 5),
        buf(&x.tkv, 6),
        word(dims.heads, 7),
        word(dims.heads_kv, 8),
        word(dims.window, 9),
        float(dims.scale, 10),
        buf(&x.q_pos_offset, 11),
        buf(&x.kv_pos_offset, 12),
        word(flag_word(out_bf16), 13),
        word(kv_capacity, 14),
    ];
    assert(binds@ =~= rows_binds(x, dims, kv_capacity, out_bf16));
    launch_groups(rt, &p, &binds, None, groups_x, groups_y, groups.count() * 32)
}

/// Row-parallel attention: one simdgroup per query row. `window == 0` selects
/// the global rule.
pub fn flash_attn_rows(
    rt: &mut GpuRuntime,
    q: &GpuBuffer,
    k: &GpuBuffer,
    v: &GpuBuffer,
    o: &GpuBuffer,
    tkv: &GpuBuffer,
    q_pos_offset: &GpuBuffer,
    kv_pos_offset: &GpuBuffer,
    dims: AttnDims,
    head_dim: u32,
    out_bf16: bool,
) -> (r: Result<(), String>)
    requires
        old(rt).inv(),
    ensures
        final(rt).inv(),
        encodes(
            old(rt)@,
            final(rt)@,
            r,
            rows_step(
                old(rt)@,
                operands(q@, k@, v@, o@, tkv@, q_pos_offset@, kv_pos_offset@),
                dims,
                head_dim,
                lanes_of(head_dim),
                groups_of(head_dim),
                out_bf16,
            ),
        ),
        r is Ok && dims.batch > 0 && dims.heads > 0 && dims.tq > 0 && in_view(old(rt)@, final(rt)@) ==> rows_seen(
            old(rt)@,
            final(rt)@,
            operands(q@, k@, v@, o@, tkv@, q_pos_offset@, kv_pos_offset@),
            dims,
            head_dim,
            lanes_of(head_dim),
            groups_of(head_dim),
            out_bf16,
        ),
{
    flash_attn_rows_with_lanes(
        rt,
        q,
        k,
        v,
        o,
        tkv,
        q_pos_offset,
        kv_pos_offset,
        dims,
        head_dim,
        rows_lanes_for(head_dim),
        rows_groups_for(head_dim),
        out_bf16,
    )
}

// -------------------------------------------------------------- routing ----

/// The variable whose presence forces the tiled kernels.
pub const ENV_ATTN_TILED: &'static str = "TESSL_ATTN_TILED";

/// The tiled kernels are forced.
pub open spec fn tiled_forced(rt: RuntimeState) -> bool {
    rt.ab.env.value_of(ENV_ATTN_TILED@) is Some
}

fn tiled_attn_forced(rt: &GpuRuntime) -> (r: bool)
    ensures
        r == tiled_forced(rt@),
{
    rt.env().get(ENV_ATTN_TILED).is_some()
}

/// Effect of a routed call: the kernel follows from the query count and the
/// backed positions.
pub open spec fn routed_step(
    rt: RuntimeState,
    x: AttnOperands,
    dims: AttnDims,
    d: u32,
    out_bf16: bool,
) -> (RuntimeState, Option<Seq<char>>) {
    let backed = x.kv_capacity(dims, d) as usize;
    match kv_problem(x.k, x.v, dims.batch, dims.heads_kv, d, "flash_attn"@) {
        Some(m) => (rt, Some(m)),
        None => match route(dims.tq, backed) {
            AttnKernel::SplitKv => decode_step(
                rt,
                x,
                dims,
                d,
                backed,
                default_tuning(d),
                out_bf16,
            ),
            AttnKernel::Rows => rows_step(rt, x, dims, d, lanes_of(d), groups_of(d), out_bf16),
        },
    }
}

fn route_attn(
    rt: &mut GpuRuntime,
    q: &GpuBuffer,
    k: &GpuBuffer,
    v: &GpuBuffer,
    o: &GpuBuffer,
    tkv: &GpuBuffer,
    q_pos_offset: &GpuBuffer,
    kv_pos_offset: &GpuBuffer,
    dims: AttnDims,
    head_dim: u32,
    out_bf16: bool,
) -> (r: Result<(), String>)
    requires
        old(rt).inv(),
    ensures
        final(rt).inv(),
        encodes(
            old(rt)@,
            final(rt)@,
            r,
            routed_step(
                old(rt)@,
                operands(q@, k@, v@, o@, tkv@, q_pos_offset@, kv_pos_offset@),
                dims,
                head_dim,
                out_bf16,
            ),
        ),
        r is Ok && dims.batch > 0 && dims.heads > 0 && dims.tq > 0 && in_view(old(rt)@, final(rt)@) ==> routed_seen(
            old(rt)@,
            final(rt)@,
            operands(q@, k@, v@, o@, tkv@, q_pos_offset@, kv_pos_offset@),
            dims,
            head_dim,
            out_bf16,
        ),
{
    let backed: u32 = attn_kv_capacity_for(
        &k.at(),
        &v.at(),
        dims.batch,
        dims.heads_kv,
        head_dim,
        "flash_attn",
    )?;
    match attn_kernel_for(dims.tq, backed as usize) {
        AttnKernel::SplitKv => flash_attn_decode(
            rt,
            q,
            k,
            v,
            o,
            tkv,
            q_pos_offset,
            kv_pos_offset,
            dims,
            head_dim,
            backed as usize,
            out_bf16,
        ),
        AttnKernel::Rows => flash_attn_rows(
            rt,
            q,
            k,
            v,
            o,
            tkv,
            q_pos_offset,
            kv_pos_offset,
            dims,
            head_dim,
            out_bf16,
        ),
    }
}

// ------------------------------------------------------- sliding window ----

/// What the sliding-window wrapper binds after the caller's scalars: at head
/// dimension 256 slot 13 is the output's bf16 flag, which is off here.
pub open spec fn swa_tail(head_dim: AttnHeadDim) -> Seq<Bind> {
    match head_dim {
        AttnHeadDim::D128 => Seq::empty(),
        AttnHeadDim::D256 => seq![word_at(0, 13)],
    }
}

/// Buffer binds of a sliding-window kernel.
pub open spec fn swa_head(x: AttnOperands) -> Seq<Bind> {
    seq![
        at(x.q, 0),
        at(x.k, 1),
        at(x.v, 2),
        at(x.o, 3),
        at(x.tkv, 6),
        at(x.q_pos_offset, 11),
        at(x.kv_pos_offset, 12),
    ]
}

/// Launch of an accepted tiled sliding-window call.
pub open spec fn swa_launched(
    rt: RuntimeState,
    head_dim: AttnHeadDim,
    x: AttnOperands,
    dims: AttnDims,
    scalars: Seq<Bind>,
) -> (RuntimeState, Option<Seq<char>>) {
    rt.kernel_groups(
        head_dim.name(),
        swa_head(x) + scalars + swa_tail(head_dim),
        None,
        ceil_div(dims.tq as int, 8) as usize,
        (dims.batch * dims.heads) as usize,
        |p: Pipeline| 32,
    )
}

/// What refuses a tiled sliding-window call.
pub open spec fn swa_problem(
    rt: u64,
    head_dim: AttnHeadDim,
    x: AttnOperands,
    dims: AttnDims,
) -> Option<Seq<char>> {
    x.problem(rt, dims, head_dim.size(), "flash_attn_swa"@, false)
}

/// Query rows of one tiled sliding-window threadgroup.
pub const SWA_BLOCK_ROWS: usize = 8;

fn launch_swa(
    rt: &mut GpuRuntime,
    head_dim: AttnHeadDim,
    x: &AttnOperands,
    dims: &AttnDims,
    scalars: &[Bind],
) -> (r: Result<(), String>)
    requires
        old(rt).inv(),
        dims.batch * dims.heads <= u32::MAX,
    ensures
        final(rt).inv(),
        encodes(old(rt)@, final(rt)@, r, swa_launched(old(rt)@, head_dim, *x, *dims, scalars@)),
{
    let p = rt.pipeline(head_dim.kernel())?;
    let groups_x: usize = div_ceil(dims.tq as usize, SWA_BLOCK_ROWS);
    let groups_y: usize = dims.batch as usize * dims.heads as usize;
    let head = [
        buf(&x.q, 0),
        buf(&x.k, 1),
        buf(&x.v, 2),
        buf(&x.o, 3),
        buf(&x.tkv, 6),
        buf(&x.q_pos_offset, 11),
        buf(&x.kv_pos_offset, 12),
    ];
    assert(head@ =~= swa_head(*x));
    let mut binds = bind_list(&head, scalars);
    match head_dim {
        AttnHeadDim::D128 => {
            assert(binds@ =~= swa_head(*x) + scalars@ + swa_tail(head_dim));
        },
        AttnHeadDim::D256 => {
            binds.push(word(0, 13));
            assert(binds@ =~= swa_head(*x) + scalars@ + swa_tail(head_dim));
        },
    }
    launch_groups(rt, &p, binds.as_slice(), None, groups_x, groups_y, 32)
}

/// [`flash_attn_swa_tiled`] with the scalar binds that `scalars` gives for the
/// validated KV capacity: 4 = `batch`, 5 = `tq`, 7 = `heads`, 8 = `heads_kv`,
/// 9 = `window`, 10 = `scale`, and the capacity at 13 for a head dimension of
/// 128, at 14 for 256. At 256 slot 13 is bound to zero afterwards.
pub fn flash_attn_swa_with_scalars<F: FnOnce(u32) -> Vec<Bind>>(
    rt: &mut GpuRuntime,
    head_dim: AttnHeadDim,
    q: &GpuBuffer,
    k: &GpuBuffer,
    v: &GpuBuffer,
    o: &GpuBuffer,
    tkv: &GpuBuffer,
    q_pos_offset: &GpuBuffer,
    kv_pos_offset: &GpuBuffer,
    dims: AttnDims,
    scalars: F,
) -> (r: Result<(), String>)
    requires
        old(rt).inv(),
        forall|kv_capacity: u32| scalars.requires((kv_capacity,)),
    ensures
        final(rt).inv(),
        ({
            let x = operands(q@, k@, v@, o@, tkv@, q_pos_offset@, kv_pos_offset@);
            match swa_problem(old(rt)@.id, head_dim, x, dims) {
                Some(m) => final(rt)@ == old(rt)@ && reports(r, Some(m)),
                None => exists|binds: Vec<Bind>| #[trigger]
                    scalars.ensures((x.kv_capacity(dims, head_dim.size()) as u32,), binds)
                        && encodes(
                        old(rt)@,
                        final(rt)@,
                        r,
                        swa_launched(old(rt)@, head_dim, x, dims, binds@),
                    ),
            }
        }),
{
    let q = &q.at();
    let k = &k.at();
    let v = &v.at();
    let o = &o.at();
    let tkv = &tkv.at();
    let q_pos_offset = &q_pos_offset.at();
    let kv_pos_offset = &kv_pos_offset.at();
    let x = AttnOperands {
        q: *q,
        k: *k,
        v: *v,
        o: *o,
        tkv: *tkv,
        q_pos_offset: *q_pos_offset,
        kv_pos_offset: *kv_pos_offset,
    };
    let id: u64 = rt.id();
    let kv_capacity: u32 = x.accept(id, &dims, head_dim.dim(), "flash_attn_swa", false)?;
    let binds = scalars(kv_capacity);
    assert(scalars.ensures((x.kv_capacity(dims, head_dim.size()) as u32,), binds));
    launch_swa(rt, head_dim, &x, &dims, binds.as_slice())
}

/// Scalar binds of a tiled sliding-window kernel.
pub open spec fn swa_scalars(head_dim: AttnHeadDim, dims: AttnDims, kv_capacity: u32) -> Seq<Bind> {
    let common = seq![
        word_at(dims.batch, 4),
        word_at(dims.tq, 5),
        word_at(dims.heads, 7),
        word_at(dims.heads_kv, 8),
        word_at(dims.window, 9),
        float_at(dims.scale, 10),
    ];
    match head_dim {
        AttnHeadDim::D128 => common.push(word_at(kv_capacity, 13)),
        AttnHeadDim::D256 => common.push(word_at(0, 13)).push(word_at(kv_capacity, 14)),
    }
}

fn swa_scalar_binds(head_dim: AttnHeadDim, dims: &AttnDims, kv_capacity: u32) -> (r: Vec<Bind>)
    ensures
        r@ == swa_scalars(head_dim, *dims, kv_capacity),
{
    let common = [
        word(dims.batch, 4),
        word(dims.tq, 5),
        word(dims.heads, 7),
        word(dims.heads_kv, 8),
        word(dims.window, 9),
        float(dims.scale, 10),
    ];
    let mut r = bind_list(&common, &[]);
    match head_dim {
        AttnHeadDim::D128 => {
            r.push(word(kv_capacity, 13));
        },
        AttnHeadDim::D256 => {
            r.push(word(0, 13));
            r.push(word(kv_capacity, 14));
        },
    }
    assert(r@ =~= swa_scalars(head_dim, *dims, kv_capacity));
    r
}

/// Effect of [`flash_attn_swa_tiled`].
pub open spec fn swa_tiled_step(
    rt: RuntimeState,
    head_dim: AttnHeadDim,
    x: AttnOperands,
    dims: AttnDims,
) -> (RuntimeState, Option<Seq<char>>) {
    rt.guarded(
        swa_problem(rt.id, head_dim, x, dims),
        false,
        None,
        swa_launched(
            rt,
            head_dim,
            x,
            dims,
            swa_scalars(head_dim, dims, x.kv_capacity(dims, head_dim.size()) as u32),
        ),
    )
}

/// The work of [`flash_attn_swa_tiled`].
fn swa_in_tiles(
    rt: &mut GpuRuntime,
    head_dim: AttnHeadDim,
    q: &GpuBuffer,
    k: &GpuBuffer,
    v: &GpuBuffer,
    o: &GpuBuffer,
    tkv: &GpuBuffer,
    q_pos_offset: &GpuBuffer,
    kv_pos_offset: &GpuBuffer,
    dims: AttnDims,
) -> (r: Result<(), String>)
    requires
        old(rt).inv(),
    ensures
        final(rt).inv(),
        encodes(
            old(rt)@,
            final(rt)@,
            r,
            swa_tiled_step(
                old(rt)@,
                head_dim,
                operands(q@, k@, v@, o@, tkv@, q_pos_offset@, kv_pos_offset@),
                dims,
            ),
        ),
{
    let q = &q.at();
    let k = &k.at();
    let v = &v.at();
    let o = &o.at();
    let tkv = &tkv.at();
    let q_pos_offset = &q_pos_offset.at();
    let kv_pos_offset = &kv_pos_offset.at();
    let x = AttnOperands {
        q: *q,
        k: *k,
        v: *v,
        o: *o,
        tkv: *tkv,
        q_pos_offset: *q_pos_offset,
        kv_pos_offset: *kv_pos_offset,
    };
    let id: u64 = rt.id();
    let kv_capacity: u32 = x.accept(id, &dims, head_dim.dim(), "flash_attn_swa", false)?;
    let binds = swa_scalar_binds(head_dim, &dims, kv_capacity);
    launch_swa(rt, head_dim, &x, &dims, binds.as_slice())
}

/// The tiled sliding-window kernel, unrouted.
pub fn flash_attn_swa_tiled(
    rt: &mut GpuRuntime,
    head_dim: AttnHeadDim,
    q: &GpuBuffer,
    k: &GpuBuffer,
    v: &GpuBuffer,
    o: &GpuBuffer,
    tkv: &GpuBuffer,
    q_pos_offset: &GpuBuffer,
    kv_pos_offset: &GpuBuffer,
    dims: AttnDims,
) -> (r: Result<(), String>)
    requires
        old(rt).inv(),
    ensures
        final(rt).inv(),
        encodes(
            old(rt)@,
            final(rt)@,
            r,
            swa_tiled_step(
                old(rt)@,
                head_dim,
                operands(q@, k@, v@, o@, tkv@, q_pos_offset@, kv_pos_offset@),
                dims,
            ),
        ),
        r is Ok && dims.batch > 0 && dims.heads > 0 && dims.tq > 0 && in_view(old(rt)@, final(rt)@) ==> swa_seen(
            old(rt)@,
            final(rt)@,
            head_dim,
            operands(q@, k@, v@, o@, tkv@, q_pos_offset@, kv_pos_offset@),
            dims,
        ),
{
    broadcast use law_swa_tiled;

    swa_in_tiles(
        rt,
        head_dim,
        q,
        k,
        v,
        o,
        tkv,
        q_pos_offset,
        kv_pos_offset,
        dims,
    )
}

/// Sliding-window attention over `[batch, tq, heads, D]` queries and
/// `[batch, tkv, heads_kv, D]` keys and values, routed to the decode or the row
/// kernel unless the tiled kernels are forced.
pub fn flash_attn_swa(
    rt: &mut GpuRuntime,
    head_dim: AttnHeadDim,
    q: &GpuBuffer,
    k: &GpuBuffer,
    v: &GpuBuffer,
    o: &GpuBuffer,
    tkv: &GpuBuffer,
    q_pos_offset: &GpuBuffer,
    kv_pos_offset: &GpuBuffer,
    dims: AttnDims,
) -> (r: Result<(), String>)
    requires
        old(rt).inv(),
    ensures
        final(rt).inv(),
        encodes(
            old(rt)@,
            final(rt)@,
            r,
            if tiled_forced(old(rt)@) {
                swa_tiled_step(
                    old(rt)@,
                    head_dim,
                    operands(q@, k@, v@, o@, tkv@, q_pos_offset@, kv_pos_offset@),
                    dims,
                )
            } else {
                routed_step(
                    old(rt)@,
                    operands(q@, k@, v@, o@, tkv@, q_pos_offset@, kv_pos_offset@),
                    dims,
                    head_dim.size(),
                    false,
                )
            },
        ),
        r is Ok && dims.batch > 0 && dims.heads > 0 && dims.tq > 0 && in_view(old(rt)@, final(rt)@) ==> gets_qkv(
            dispatch(old(rt)@, final(rt)@),
            operands(q@, k@, v@, o@, tkv@, q_pos_offset@, kv_pos_offset@),
        ),
        r is Ok && dims.batch > 0 && dims.heads > 0 && dims.tq > 0 && !tiled_forced(old(rt)@) && in_view(old(rt)@, final(rt)@) ==> routed_seen(
            old(rt)@,
            final(rt)@,
            operands(q@, k@, v@, o@, tkv@, q_pos_offset@, kv_pos_offset@),
            dims,
            head_dim.size(),
            false,
        ),
{
    if !tiled_attn_forced(rt) {
        return route_attn(
            rt,
            q,
            k,
            v,
            o,
            tkv,
            q_pos_offset,
            kv_pos_offset,
            dims,
            head_dim.dim(),
            false,
        );
    }
    flash_attn_swa_tiled(rt, head_dim, q, k, v, o, tkv, q_pos_offset, kv_pos_offset, dims)
}

// --------------------------------------------------------------- global ----

/// Buffer binds of the global kernel.
pub open spec fn global_head(x: AttnOperands) -> Seq<Bind> {
    seq![
        at(x.q, 0),
        at(x.k, 1),
        at(x.v, 2),
        at(x.o, 3),
        at(x.tkv, 6),
        at(x.q_pos_offset, 10),
        at(x.kv_pos_offset, 11),
    ]
}

/// Launch of an accepted tiled global call.
pub open spec fn global_launched(
    rt: RuntimeState,
    x: AttnOperands,
    dims: AttnDims,
    scalars: Seq<Bind>,
) -> (RuntimeState, Option<Seq<char>>) {
    rt.kernel_groups(
        "flash_attn_global_h512"@,
        global_head(x) + scalars,
        None,
        ceil_div(dims.tq as int, 4) as usize,
        (dims.batch * dims.heads) as usize,
        |p: Pipeline| 32,
    )
}

/// Query rows of one tiled global threadgroup.
pub const GLOBAL_BLOCK_ROWS: usize = 4;

fn launch_global(rt: &mut GpuRuntime, x: &AttnOperands, dims: &AttnDims, scalars: &[Bind]) -> (r:
    Result<(), String>)
    requires
        old(rt).inv(),
        dims.batch * dims.heads <= u32::MAX,
    ensures
        final(rt).inv(),
        encodes(old(rt)@, final(rt)@, r, global_launched(old(rt)@, *x, *dims, scalars@)),
{
    let p = rt.pipeline("flash_attn_global_h512")?;
    let groups_x: usize = div_ceil(dims.tq as usize, GLOBAL_BLOCK_ROWS);
    let groups_y: usize = dims.batch as usize * dims.heads as usize;
    let head = [
        buf(&x.q, 0),
        buf(&x.k, 1),
        buf(&x.v, 2),
        buf(&x.o, 3),
        buf(&x.tkv, 6),
        buf(&x.q_pos_offset, 10),
        buf(&x.kv_pos_offset, 11),
    ];
    assert(head@ =~= global_head(*x));
    let binds = bind_list(&head, scalars);
    launch_groups(rt, &p, binds.as_slice(), None, groups_x, groups_y, 32)
}

/// What refuses a tiled global call.
pub open spec fn global_problem(
    rt: u64,
    x: AttnOperands,
    dims: AttnDims,
    out_bf16: bool,
) -> Option<Seq<char>> {
    x.problem(rt, dims, 512, "flash_attn_global_h512"@, out_bf16)
}

/// [`flash_attn_global_h512_tiled`] with the scalar binds that `scalars` gives
/// for the validated KV capacity: 4 = `batch`, 5 = `tq`, 7 = `heads`,
/// 8 = `heads_kv`, 9 = `scale`, 12 = `out_bf16`, 13 = the capacity.
pub fn flash_attn_global_h512_with_scalars<F: FnOnce(u32) -> Vec<Bind>>(
    rt: &mut GpuRuntime,
    q: &GpuBuffer,
    k: &GpuBuffer,
    v: &GpuBuffer,
    o: &GpuBuffer,
    tkv: &GpuBuffer,
    q_pos_offset: &GpuBuffer,
    kv_pos_offset: &GpuBuffer,
    dims: AttnDims,
    out_bf16: bool,
    scalars: F,
) -> (r: Result<(), String>)
    requires
        old(rt).inv(),
        forall|kv_capacity: u32| scalars.requires((kv_capacity,)),
    ensures
        final(rt).inv(),
        ({
            let x = operands(q@, k@, v@, o@, tkv@, q_pos_offset@, kv_pos_offset@);
            match global_problem(old(rt)@.id, x, dims, out_bf16) {
                Some(m) => final(rt)@ == old(rt)@ && reports(r, Some(m)),
                None => exists|binds: Vec<Bind>| #[trigger]
                    scalars.ensures((x.kv_capacity(dims, 512) as u32,), binds) && encodes(
                        old(rt)@,
                        final(rt)@,
                        r,
                        global_launched(old(rt)@, x, dims, binds@),
                    ),
            }
        }),
{
    let q = &q.at();
    let k = &k.at();
    let v = &v.at();
    let o = &o.at();
    let tkv = &tkv.at();
    let q_pos_offset = &q_pos_offset.at();
    let kv_pos_offset = &kv_pos_offset.at();
    let x = AttnOperands {
        q: *q,
        k: *k,
        v: *v,
        o: *o,
        tkv: *tkv,
        q_pos_offset: *q_pos_offset,
        kv_pos_offset: *kv_pos_offset,
    };
    let id: u64 = rt.id();
    let kv_capacity: u32 = x.accept(id, &dims, 512, "flash_attn_global_h512", out_bf16)?;
    let binds = scalars(kv_capacity);
    assert(scalars.ensures((x.kv_capacity(dims, 512) as u32,), binds));
    launch_global(rt, &x, &dims, binds.as_slice())
}

/// Scalar binds of the global kernel.
pub open spec fn global_scalars(dims: AttnDims, kv_capacity: u32, out_bf16: bool) -> Seq<Bind> {
    seq![
        word_at(dims.batch, 4),
        word_at(dims.tq, 5),
        word_at(dims.heads, 7),
        word_at(dims.heads_kv, 8),
        float_at(dims.scale, 9),
        word_at(flag(out_bf16), 12),
        word_at(kv_capacity, 13),
    ]
}

/// Effect of [`flash_attn_global_h512_tiled`].
pub open spec fn global_tiled_step(
    rt: RuntimeState,
    x: AttnOperands,
    dims: AttnDims,
    out_bf16: bool,
) -> (RuntimeState, Option<Seq<char>>) {
    rt.guarded(
        global_problem(rt.id, x, dims, out_bf16),
        false,
        None,
        global_launched(
            rt,
            x,
            dims,
            global_scalars(dims, x.kv_capacity(dims, 512) as u32, out_bf16),
        ),
    )
}

/// The work of [`flash_attn_global_h512_tiled`].
fn global_in_tiles(
    rt: &mut GpuRuntime,
    q: &GpuBuffer,
    k: &GpuBuffer,
    v: &GpuBuffer,
    o: &GpuBuffer,
    tkv: &GpuBuffer,
    q_pos_offset: &GpuBuffer,
    kv_pos_offset: &GpuBuffer,
    dims: AttnDims,
    out_bf16: bool,
) -> (r: Result<(), String>)
    requires
        old(rt).inv(),
    ensures
        final(rt).inv(),
        encodes(
            old(rt)@,
            final(rt)@,
            r,
            global_tiled_step(
                old(rt)@,
                operands(q@, k@, v@, o@, tkv@, q_pos_offset@, kv_pos_offset@),
                dims,
                out_bf16,
            ),
        ),
{
    let q = &q.at();
    let k = &k.at();
    let v = &v.at();
    let o = &o.at();
    let tkv = &tkv.at();
    let q_pos_offset = &q_pos_offset.at();
    let kv_pos_offset = &kv_pos_offset.at();
    let x = AttnOperands {
        q: *q,
        k: *k,
        v: *v,
        o: *o,
        tkv: *tkv,
        q_pos_offset: *q_pos_offset,
        kv_pos_offset: *kv_pos_offset,
    };
    let id: u64 = rt.id();
    let kv_capacity: u32 = x.accept(id, &dims, 512, "flash_attn_global_h512", out_bf16)?;
    let scalars = [
        word(dims.batch, 4),
        word(dims.tq, 5),
        word(dims.heads, 7),
        word(dims.heads_kv, 8),
        float(dims.scale, 9),
        word(flag_word(out_bf16), 12),
        word(kv_capacity, 13),
    ];
    assert(scalars@ =~= global_scalars(dims, kv_capacity, out_bf16));
    launch_global(rt, &x, &dims, &scalars)
}

/// The tiled global kernel, unrouted.
pub fn flash_attn_global_h512_tiled(
    rt: &mut GpuRuntime,
    q: &GpuBuffer,
    k: &GpuBuffer,
    v: &GpuBuffer,
    o: &GpuBuffer,
    tkv: &GpuBuffer,
    q_pos_offset: &GpuBuffer,
    kv_pos_offset: &GpuBuffer,
    dims: AttnDims,
    out_bf16: bool,
) -> (r: Result<(), String>)
    requires
        old(rt).inv(),
    ensures
        final(rt).inv(),
        encodes(
            old(rt)@,
            final(rt)@,
            r,
            global_tiled_step(
                old(rt)@,
                operands(q@, k@, v@, o@, tkv@, q_pos_offset@, kv_pos_offset@),
                dims,
                out_bf16,
            ),
        ),
        r is Ok && dims.batch > 0 && dims.heads > 0 && dims.tq > 0 && in_view(old(rt)@, final(rt)@) ==> global_seen(
            old(rt)@,
            final(rt)@,
            operands(q@, k@, v@, o@, tkv@, q_pos_offset@, kv_pos_offset@),
            dims,
            out_bf16,
        ),
{
    broadcast use law_global_tiled;

    global_in_tiles(
        rt,
        q,
        k,
        v,
        o,
        tkv,
        q_pos_offset,
        kv_pos_offset,
        dims,
        out_bf16,
    )
}

/// The dimensions with the window switched off.
pub open spec fn unwindowed(dims: AttnDims) -> AttnDims {
    AttnDims { window: 0, ..dims }
}

/// Global attention at a head dimension of 512. The window in `dims` is ignored
/// whichever kernel runs.
pub fn flash_attn_global_h512(
    rt: &mut GpuRuntime,
    q: &GpuBuffer,
    k: &GpuBuffer,
    v: &GpuBuffer,
    o: &GpuBuffer,
    tkv: &GpuBuffer,
    q_pos_offset: &GpuBuffer,
    kv_pos_offset: &GpuBuffer,
    dims: AttnDims,
    out_bf16: bool,
) -> (r: Result<(), String>)
    requires
        old(rt).inv(),
    ensures
        final(rt).inv(),
        encodes(
            old(rt)@,
            final(rt)@,
            r,
            if tiled_forced(old(rt)@) {
                global_tiled_step(
                    old(rt)@,
                    operands(q@, k@, v@, o@, tkv@, q_pos_offset@, kv_pos_offset@),
                    dims,
                    out_bf16,
                )
            } else {
                routed_step(
                    old(rt)@,
                    operands(q@, k@, v@, o@, tkv@, q_pos_offset@, kv_pos_offset@),
                    unwindowed(dims),
                    512,
                    out_bf16,
                )
            },
        ),
        r is Ok && dims.batch > 0 && dims.heads > 0 && dims.tq > 0 && in_view(old(rt)@, final(rt)@) ==> gets_qkv(
            dispatch(old(rt)@, final(rt)@),
            operands(q@, k@, v@, o@, tkv@, q_pos_offset@, kv_pos_offset@),
        ),
{
    if !tiled_attn_forced(rt) {
        let global = AttnDims { window: 0, ..dims };
        return route_attn(
            rt,
            q,
            k,
            v,
            o,
            tkv,
            q_pos_offset,
            kv_pos_offset,
            global,
            512,
            out_bf16,
        );
    }
    flash_attn_global_h512_tiled(rt, q, k, v, o, tkv, q_pos_offset, kv_pos_offset, dims, out_bf16)
}

/// The global entry point's result does not depend on the window.
pub proof fn law_global_attention_ignores_window(
    rt: RuntimeState,
    x: AttnOperands,
    dims: AttnDims,
    other: u32,
    out_bf16: bool,
)
    ensures
        unwindowed(dims) == unwindowed(AttnDims { window: other, ..dims }),
        global_tiled_step(rt, x, dims, out_bf16) == global_tiled_step(
            rt,
            x,
            AttnDims { window: other, ..dims },
            out_bf16,
        ),
{
    let a = dims;
    let b = AttnDims { window: other, ..dims };
    assert(a.extents(512) == b.extents(512));
    assert(global_problem(rt.id, x, a, out_bf16) == global_problem(rt.id, x, b, out_bf16));
    assert(global_scalars(a, x.kv_capacity(a, 512) as u32, out_bf16) == global_scalars(
        b,
        x.kv_capacity(b, 512) as u32,
        out_bf16,
    ));
}

} // verus!
