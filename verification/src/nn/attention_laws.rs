//! What the attention kernels get from an accepted call. Whichever kernel a call
//! goes to, it finds the queries in slot 0, the keys in slot 1 and the values in
//! slot 2.

use vstd::prelude::*;

use crate::device::Pipeline;
use crate::dispatch::Bind;
use crate::nn::attention::{
    law_admitted_attention_is_backed, position_elems, AttnDims, AttnHeadDim, AttnOperands,
    RowsGroups, RowsLanes,
};
use crate::nn::check::{at, float_at, word_at};
use crate::nn::flash::{
    decode_passes, decode_step, global_head, global_launched, global_scalars, global_tiled_step,
    law_chunks_cover_capacity, partial_binds, partial_pass, partial_width, reduce_binds,
    reduce_pass, reduce_width, rows_binds, rows_per_group, rows_step, swa_head, swa_launched,
    swa_scalars, swa_tail, swa_tiled_step, DecodeTuning,
};
use crate::nn::laws::{lemma_kernel_groups, lemma_room};
use crate::seen::{
    carried, carries, carries_all, clear, dispatch, has_room, in_view, launches, law_pipeline,
    lemma_allocated_quiet, lemma_carried, lemma_launches_after_quiet, lemma_launches_same,
    lemma_pair_shows, lemma_pick, lemma_starts_on, quietly, ran, rising, starts, Launch,
};
use crate::sizes::{ints32, product, product_to};
use crate::state::RuntimeState;
use crate::tensor::{BufferKind, Storage};
use crate::text::decimal;

verus! {

/// The kernel finds queries, keys and values in slots 0, 1 and 2.
pub open spec fn gets_qkv(l: Launch, x: AttnOperands) -> bool {
    &&& l.gets(0, x.q, 0)
    &&& l.gets(1, x.k, 0)
    &&& l.gets(2, x.v, 0)
}

/// Query and output hold a row of `d` for each query and head; keys and values one
/// for each of `kv` positions and KV head, and not for one position more; each live
/// scalar is a word. What is written is nothing that is read.
pub open spec fn backed(
    rt: RuntimeState,
    x: AttnOperands,
    dims: AttnDims,
    d: u32,
    out_bf16: bool,
    kv: int,
) -> bool {
    let size = if out_bf16 {
        2int
    } else {
        4int
    };
    &&& has_room(rt, x.q, dims.batch * dims.tq * dims.heads * d * 4)
    &&& has_room(rt, x.o, dims.batch * dims.tq * dims.heads * d * size)
    &&& has_room(rt, x.k, kv * (dims.batch * dims.heads_kv * d) * 4)
    &&& has_room(rt, x.v, kv * (dims.batch * dims.heads_kv * d) * 4)
    &&& x.k.nbytes < (kv + 1) * (dims.batch * dims.heads_kv * d) * 4
    &&& x.v.nbytes < (kv + 1) * (dims.batch * dims.heads_kv * d) * 4
    &&& has_room(rt, x.tkv, 4)
    &&& has_room(rt, x.q_pos_offset, 4)
    &&& has_room(rt, x.kv_pos_offset, 4)
    &&& kv > 0
    &&& dims.heads as int % dims.heads_kv as int == 0
    &&& x.o.slab.id != x.k.slab.id
    &&& x.o.slab.id != x.v.slab.id
    &&& out_bf16 ==> x.o.slab.id != x.q.slab.id
}

/// A product of four extents.
pub proof fn lemma_product4(a: u32, b: u32, c: u32, d: u32)
    ensures
        product(ints32(seq![a, b, c, d])) == a * b * c * d,
{
    let s = ints32(seq![a, b, c, d]);
    assert(s =~= seq![a as int, b as int, c as int, d as int]);
    reveal_with_fuel(product_to, 5);
}

/// A product of three extents.
pub proof fn lemma_product3(a: u32, b: u32, c: u32)
    ensures
        product(ints32(seq![a, b, c])) == a * b * c,
{
    let s = ints32(seq![a, b, c]);
    assert(s =~= seq![a as int, b as int, c as int]);
    reveal_with_fuel(product_to, 4);
}

proof fn lemma_backed(
    rt: RuntimeState,
    x: AttnOperands,
    dims: AttnDims,
    d: u32,
    what: Seq<char>,
    out_bf16: bool,
)
    requires
        dims.batch > 0 && dims.heads > 0 && dims.tq > 0,
        x.problem(rt.id, dims, d, what, out_bf16) is None,
    ensures
        backed(rt, x, dims, d, out_bf16, x.kv_capacity(dims, d)),
        dims.batch * dims.heads <= u32::MAX,
        0 < dims.batch * dims.heads,
        0 <= x.kv_capacity(dims, d) <= u32::MAX,
{
    law_admitted_attention_is_backed(dims, d, x.q, x.k, x.v, x.o, what, out_bf16);
    lemma_room(rt, x.tkv, 1, 4, what + " tkv"@);
    lemma_room(rt, x.q_pos_offset, 1, 4, what + " q_pos_offset"@);
    lemma_room(rt, x.kv_pos_offset, 1, 4, what + " kv_pos_offset"@);
    lemma_product4(dims.batch, dims.tq, dims.heads, d);
    lemma_product3(dims.batch, dims.heads_kv, d);
    let pe = dims.batch * dims.heads_kv * d;
    assert(pe > 0 && dims.batch * dims.heads > 0) by (nonlinear_arith)
        requires
            pe == dims.batch * dims.heads_kv * d,
            dims.batch > 0,
            dims.heads_kv > 0,
            dims.heads > 0,
            d > 0,
    ;
    lemma_no_more(x.k.nbytes as int, pe);
    lemma_no_more(x.v.nbytes as int, pe);
}

proof fn lemma_no_more(n: int, pe: int)
    requires
        n >= 0,
        pe > 0,
    ensures
        n < ((n / 4) / pe + 1) * pe * 4,
{
    let q = (n / 4) / pe;
    assert(n / 4 < (q + 1) * pe) by (nonlinear_arith)
        requires
            pe > 0,
            q == (n / 4) / pe,
    ;
}

/// A word that is one or zero.
pub open spec fn bit(b: bool) -> u32 {
    if b {
        1
    } else {
        0
    }
}

// ------------------------------------------------------------------- rows ---

/// The row kernel: one thread grid of groups by batch and head.
pub open spec fn rows_seen(
    before: RuntimeState,
    after: RuntimeState,
    x: AttnOperands,
    dims: AttnDims,
    d: u32,
    lanes: RowsLanes,
    groups: RowsGroups,
    out_bf16: bool,
) -> bool {
    let l = dispatch(before, after);
    let rows = groups.len() * (32int / lanes.len() as int);
    &&& ran(
        before,
        after,
        "flash_attn_rows_h"@ + decimal(d as nat) + "_r"@ + decimal(lanes.len() as nat) + "_g"@
            + decimal(groups.len() as nat),
    )
    &&& gets_qkv(l, x)
    &&& l.gets(3, x.o, 0)
    &&& l.reads(4, dims.batch)
    &&& l.reads(5, dims.tq)
    &&& l.gets(6, x.tkv, 0)
    &&& l.reads(7, dims.heads)
    &&& l.reads(8, dims.heads_kv)
    &&& l.reads(9, dims.window)
    &&& l.reads(10, dims.scale)
    &&& l.gets(11, x.q_pos_offset, 0)
    &&& l.gets(12, x.kv_pos_offset, 0)
    &&& l.reads(13, bit(out_bf16))
    &&& l.reads(14, l.word(14))
    &&& backed(before, x, dims, d, out_bf16, l.word(14) as int)
    &&& l.groups.height == dims.batch * dims.heads
    &&& l.groups.depth == 1
    &&& dims.tq <= l.groups.width * rows
    &&& (l.groups.width - 1) * rows < dims.tq
    &&& l.threads.width == 32 * groups.len()
    &&& l.threads.height == 1
    &&& l.threads.depth == 1
}

/// An accepted row call hands its kernel every operand in its slot, each large
/// enough for the capacity in slot 14.
#[verifier::rlimit(40)]
pub broadcast proof fn law_rows(
    rt: RuntimeState,
    x: AttnOperands,
    dims: AttnDims,
    d: u32,
    lanes: RowsLanes,
    groups: RowsGroups,
    out_bf16: bool,
)
    requires
        dims.batch > 0 && dims.heads > 0 && dims.tq > 0,
        rows_step(rt, x, dims, d, lanes, groups, out_bf16).1 is None,
        in_view(rt, rows_step(rt, x, dims, d, lanes, groups, out_bf16).0),
    ensures
        rows_seen(
            rt,
            (#[trigger] rows_step(rt, x, dims, d, lanes, groups, out_bf16)).0,
            x,
            dims,
            d,
            lanes,
            groups,
            out_bf16,
        ),
{
    let t = rows_step(rt, x, dims, d, lanes, groups, out_bf16).0;
    lemma_backed(rt, x, dims, d, "flash_attn_rows"@, out_bf16);
    let rows = rows_per_group(lanes, groups);
    crate::nn::flash::law_rows_grid_covers_queries(dims.tq, lanes, groups);
    crate::sizes::lemma_ceil_div_covers(dims.tq as int, rows);
    let binds = rows_binds(x, dims, x.kv_capacity(dims, d) as u32, out_bf16);
    let f = |p: Pipeline| (groups.len() * 32) as usize;
    lemma_kernel_groups(
        rt,
        crate::nn::attention::rows_name(d, lanes, groups),
        binds,
        None,
        crate::sizes::ceil_div(dims.tq as int, rows) as usize,
        (dims.batch * dims.heads) as usize,
        f,
    );
    let l = dispatch(rt, t);
    assert(rising(binds, 15)) by {
        reveal_with_fuel(rising, 16);
    }
    lemma_carried(l, binds);
    reveal(carried);
    assert(carries(l, binds[0]) && carries(l, binds[1]) && carries(l, binds[2]));
    assert(carries(l, binds[3]) && carries(l, binds[4]) && carries(l, binds[5]));
    assert(carries(l, binds[6]) && carries(l, binds[7]) && carries(l, binds[8]));
    assert(carries(l, binds[9]) && carries(l, binds[10]) && carries(l, binds[11]));
    assert(carries(l, binds[12]) && carries(l, binds[13]) && carries(l, binds[14]));
    assert(dispatch(rt, t).word(14) as int == x.kv_capacity(dims, d));
}

// ------------------------------------------------------------------ tiled ---

/// The tiled sliding-window kernel, with the binds of the scalars left to the
/// caller.
pub open spec fn swa_seen(
    before: RuntimeState,
    after: RuntimeState,
    head_dim: AttnHeadDim,
    x: AttnOperands,
    dims: AttnDims,
) -> bool {
    let l = dispatch(before, after);
    let (d, kv) = match head_dim {
        AttnHeadDim::D128 => (128u32, 13int),
        AttnHeadDim::D256 => (256u32, 14int),
    };
    &&& ran(
        before,
        after,
        match head_dim {
            AttnHeadDim::D128 => "flash_attn_swa_h128"@,
            AttnHeadDim::D256 => "flash_attn_swa_h256"@,
        },
    )
    &&& gets_qkv(l, x)
    &&& l.gets(3, x.o, 0)
    &&& l.reads(4, dims.batch)
    &&& l.reads(5, dims.tq)
    &&& l.gets(6, x.tkv, 0)
    &&& l.reads(7, dims.heads)
    &&& l.reads(8, dims.heads_kv)
    &&& l.reads(9, dims.window)
    &&& l.reads(10, dims.scale)
    &&& l.gets(11, x.q_pos_offset, 0)
    &&& l.gets(12, x.kv_pos_offset, 0)
    &&& head_dim == AttnHeadDim::D256 ==> l.reads(13, 0)
    &&& l.reads(kv, l.word(kv))
    &&& backed(before, x, dims, d, false, l.word(kv) as int)
    &&& l.groups.height == dims.batch * dims.heads
    &&& l.groups.depth == 1
    &&& dims.tq <= l.groups.width * 8
    &&& (l.groups.width - 1) * 8 < dims.tq
    &&& l.threads.width == 32
    &&& l.threads.height == 1
    &&& l.threads.depth == 1
}

/// An accepted call of the tiled sliding-window kernel hands it every operand in
/// its slot. At a head dimension of 256 slot 13 says that the output is no bf16.
#[verifier::rlimit(40)]
pub broadcast proof fn law_swa_tiled(
    rt: RuntimeState,
    head_dim: AttnHeadDim,
    x: AttnOperands,
    dims: AttnDims,
)
    requires
        dims.batch > 0 && dims.heads > 0 && dims.tq > 0,
        swa_tiled_step(rt, head_dim, x, dims).1 is None,
        in_view(rt, swa_tiled_step(rt, head_dim, x, dims).0),
    ensures
        swa_seen(rt, (#[trigger] swa_tiled_step(rt, head_dim, x, dims)).0, head_dim, x, dims),
{
    let t = swa_tiled_step(rt, head_dim, x, dims).0;
    let d = head_dim.size();
    lemma_backed(rt, x, dims, d, "flash_attn_swa"@, false);
    crate::sizes::lemma_ceil_div_covers(dims.tq as int, 8);
    let cap = x.kv_capacity(dims, d) as u32;
    let binds = swa_head(x) + swa_scalars(head_dim, dims, cap) + swa_tail(head_dim);
    let f = |p: Pipeline| 32usize;
    lemma_kernel_groups(
        rt,
        head_dim.name(),
        binds,
        None,
        crate::sizes::ceil_div(dims.tq as int, 8) as usize,
        (dims.batch * dims.heads) as usize,
        f,
    );
    lemma_swa_binds(dispatch(rt, t), head_dim, x, dims, cap);
    match head_dim {
        AttnHeadDim::D128 => {
            assert(dispatch(rt, t).word(13) as int == x.kv_capacity(dims, d));
        },
        AttnHeadDim::D256 => {
            assert(dispatch(rt, t).word(14) as int == x.kv_capacity(dims, d));
        },
    }
}

/// The tiled global kernel.
pub open spec fn global_seen(
    before: RuntimeState,
    after: RuntimeState,
    x: AttnOperands,
    dims: AttnDims,
    out_bf16: bool,
) -> bool {
    let l = dispatch(before, after);
    &&& ran(before, after, "flash_attn_global_h512"@)
    &&& gets_qkv(l, x)
    &&& l.gets(3, x.o, 0)
    &&& l.reads(4, dims.batch)
    &&& l.reads(5, dims.tq)
    &&& l.gets(6, x.tkv, 0)
    &&& l.reads(7, dims.heads)
    &&& l.reads(8, dims.heads_kv)
    &&& l.reads(9, dims.scale)
    &&& l.gets(10, x.q_pos_offset, 0)
    &&& l.gets(11, x.kv_pos_offset, 0)
    &&& l.reads(12, bit(out_bf16))
    &&& l.reads(13, l.word(13))
    &&& backed(before, x, dims, 512, out_bf16, l.word(13) as int)
    &&& l.groups.height == dims.batch * dims.heads
    &&& l.groups.depth == 1
    &&& dims.tq <= l.groups.width * 4
    &&& (l.groups.width - 1) * 4 < dims.tq
    &&& l.threads.width == 32
    &&& l.threads.height == 1
    &&& l.threads.depth == 1
}

/// An accepted call of the tiled global kernel hands it every operand in its slot.
#[verifier::rlimit(40)]
pub broadcast proof fn law_global_tiled(rt: RuntimeState, x: AttnOperands, dims: AttnDims, out_bf16: bool)
    requires
        dims.batch > 0 && dims.heads > 0 && dims.tq > 0,
        global_tiled_step(rt, x, dims, out_bf16).1 is None,
        in_view(rt, global_tiled_step(rt, x, dims, out_bf16).0),
    ensures
        global_seen(
            rt,
            (#[trigger] global_tiled_step(rt, x, dims, out_bf16)).0,
            x,
            dims,
            out_bf16,
        ),
{
    let t = global_tiled_step(rt, x, dims, out_bf16).0;
    lemma_backed(rt, x, dims, 512, "flash_attn_global_h512"@, out_bf16);
    crate::sizes::lemma_ceil_div_covers(dims.tq as int, 4);
    let cap = x.kv_capacity(dims, 512) as u32;
    let binds = global_head(x) + global_scalars(dims, cap, out_bf16);
    let f = |p: Pipeline| 32usize;
    lemma_kernel_groups(
        rt,
        "flash_attn_global_h512"@,
        binds,
        None,
        crate::sizes::ceil_div(dims.tq as int, 4) as usize,
        (dims.batch * dims.heads) as usize,
        f,
    );
    lemma_global_binds(dispatch(rt, t), x, dims, cap, out_bf16);
    assert(dispatch(rt, t).word(13) as int == x.kv_capacity(dims, 512));
}

proof fn lemma_global_binds(
    l: Launch,
    x: AttnOperands,
    dims: AttnDims,
    cap: u32,
    out_bf16: bool,
)
    requires
        carries_all(l, global_head(x) + global_scalars(dims, cap, out_bf16)),
    ensures
        gets_qkv(l, x),
        l.gets(3, x.o, 0),
        l.reads(4, dims.batch),
        l.reads(5, dims.tq),
        l.gets(6, x.tkv, 0),
        l.reads(7, dims.heads),
        l.reads(8, dims.heads_kv),
        l.reads(9, dims.scale),
        l.gets(10, x.q_pos_offset, 0),
        l.gets(11, x.kv_pos_offset, 0),
        l.reads(12, bit(out_bf16)),
        l.reads(13, cap),
{
    let flat = seq![
        at(x.q, 0),
        at(x.k, 1),
        at(x.v, 2),
        at(x.o, 3),
        at(x.tkv, 6),
        at(x.q_pos_offset, 10),
        at(x.kv_pos_offset, 11),
        word_at(dims.batch, 4),
        word_at(dims.tq, 5),
        word_at(dims.heads, 7),
        word_at(dims.heads_kv, 8),
        float_at(dims.scale, 9),
        word_at(bit(out_bf16), 12),
        word_at(cap, 13),
    ];
    assert(global_head(x) + global_scalars(dims, cap, out_bf16) =~= flat);
    assert(carries(l, flat[0])) by {
        reveal_with_fuel(clear, 15);
        lemma_pick(l, flat, 0);
    }
    assert(carries(l, flat[1])) by {
        reveal_with_fuel(clear, 15);
        lemma_pick(l, flat, 1);
    }
    assert(carries(l, flat[2])) by {
        reveal_with_fuel(clear, 15);
        lemma_pick(l, flat, 2);
    }
    assert(carries(l, flat[3])) by {
        reveal_with_fuel(clear, 15);
        lemma_pick(l, flat, 3);
    }
    assert(carries(l, flat[4])) by {
        reveal_with_fuel(clear, 15);
        lemma_pick(l, flat, 4);
    }
    assert(carries(l, flat[5])) by {
        reveal_with_fuel(clear, 15);
        lemma_pick(l, flat, 5);
    }
    assert(carries(l, flat[6])) by {
        reveal_with_fuel(clear, 15);
        lemma_pick(l, flat, 6);
    }
    assert(carries(l, flat[7])) by {
        reveal_with_fuel(clear, 15);
        lemma_pick(l, flat, 7);
    }
    assert(carries(l, flat[8])) by {
        reveal_with_fuel(clear, 15);
        lemma_pick(l, flat, 8);
    }
    assert(carries(l, flat[9])) by {
        reveal_with_fuel(clear, 15);
        lemma_pick(l, flat, 9);
    }
    assert(carries(l, flat[10])) by {
        reveal_with_fuel(clear, 15);
        lemma_pick(l, flat, 10);
    }
    assert(carries(l, flat[11])) by {
        reveal_with_fuel(clear, 15);
        lemma_pick(l, flat, 11);
    }
    assert(carries(l, flat[12])) by {
        reveal_with_fuel(clear, 15);
        lemma_pick(l, flat, 12);
    }
    assert(carries(l, flat[13])) by {
        reveal_with_fuel(clear, 15);
        lemma_pick(l, flat, 13);
    }
}

proof fn lemma_swa_binds(
    l: Launch,
    head_dim: AttnHeadDim,
    x: AttnOperands,
    dims: AttnDims,
    cap: u32,
)
    requires
        carries_all(l, swa_head(x) + swa_scalars(head_dim, dims, cap) + swa_tail(head_dim)),
    ensures
        gets_qkv(l, x),
        l.gets(3, x.o, 0),
        l.reads(4, dims.batch),
        l.reads(5, dims.tq),
        l.gets(6, x.tkv, 0),
        l.reads(7, dims.heads),
        l.reads(8, dims.heads_kv),
        l.reads(9, dims.window),
        l.reads(10, dims.scale),
        l.gets(11, x.q_pos_offset, 0),
        l.gets(12, x.kv_pos_offset, 0),
        head_dim == AttnHeadDim::D128 ==> l.reads(13, cap),
        head_dim == AttnHeadDim::D256 ==> l.reads(13, 0) && l.reads(14, cap),
{
    let binds = swa_head(x) + swa_scalars(head_dim, dims, cap) + swa_tail(head_dim);
    let common = seq![
        at(x.q, 0),
        at(x.k, 1),
        at(x.v, 2),
        at(x.o, 3),
        at(x.tkv, 6),
        at(x.q_pos_offset, 11),
        at(x.kv_pos_offset, 12),
        word_at(dims.batch, 4),
        word_at(dims.tq, 5),
        word_at(dims.heads, 7),
        word_at(dims.heads_kv, 8),
        word_at(dims.window, 9),
        float_at(dims.scale, 10),
    ];
    match head_dim {
        AttnHeadDim::D128 => {
            let flat = common.push(word_at(cap, 13));
            assert(binds =~= flat);
            assert(carries(l, flat[0])) by {
                reveal_with_fuel(clear, 15);
                lemma_pick(l, flat, 0);
            }
                    assert(carries(l, flat[1])) by {
                reveal_with_fuel(clear, 15);
                lemma_pick(l, flat, 1);
            }
                    assert(carries(l, flat[2])) by {
                reveal_with_fuel(clear, 15);
                lemma_pick(l, flat, 2);
            }
                    assert(carries(l, flat[3])) by {
                reveal_with_fuel(clear, 15);
                lemma_pick(l, flat, 3);
            }
                    assert(carries(l, flat[4])) by {
                reveal_with_fuel(clear, 15);
                lemma_pick(l, flat, 4);
            }
                    assert(carries(l, flat[5])) by {
                reveal_with_fuel(clear, 15);
                lemma_pick(l, flat, 5);
            }
                    assert(carries(l, flat[6])) by {
                reveal_with_fuel(clear, 15);
                lemma_pick(l, flat, 6);
            }
                    assert(carries(l, flat[7])) by {
                reveal_with_fuel(clear, 15);
                lemma_pick(l, flat, 7);
            }
                    assert(carries(l, flat[8])) by {
                reveal_with_fuel(clear, 15);
                lemma_pick(l, flat, 8);
            }
                    assert(carries(l, flat[9])) by {
                reveal_with_fuel(clear, 15);
                lemma_pick(l, flat, 9);
            }
                    assert(carries(l, flat[10])) by {
                reveal_with_fuel(clear, 15);
                lemma_pick(l, flat, 10);
            }
                    assert(carries(l, flat[11])) by {
                reveal_with_fuel(clear, 15);
                lemma_pick(l, flat, 11);
            }
                    assert(carries(l, flat[12])) by {
                reveal_with_fuel(clear, 15);
                lemma_pick(l, flat, 12);
            }
                    assert(carries(l, flat[13])) by {
                reveal_with_fuel(clear, 15);
                lemma_pick(l, flat, 13);
            }
        },
        AttnHeadDim::D256 => {
            let flat = common.push(word_at(0, 13)).push(word_at(cap, 14)).push(word_at(0, 13));
            assert(binds =~= flat);
            assert(carries(l, flat[0])) by {
                reveal_with_fuel(clear, 17);
                lemma_pick(l, flat, 0);
            }
                    assert(carries(l, flat[1])) by {
                reveal_with_fuel(clear, 17);
                lemma_pick(l, flat, 1);
            }
                    assert(carries(l, flat[2])) by {
                reveal_with_fuel(clear, 17);
                lemma_pick(l, flat, 2);
            }
                    assert(carries(l, flat[3])) by {
                reveal_with_fuel(clear, 17);
                lemma_pick(l, flat, 3);
            }
                    assert(carries(l, flat[4])) by {
                reveal_with_fuel(clear, 17);
                lemma_pick(l, flat, 4);
            }
                    assert(carries(l, flat[5])) by {
                reveal_with_fuel(clear, 17);
                lemma_pick(l, flat, 5);
            }
                    assert(carries(l, flat[6])) by {
                reveal_with_fuel(clear, 17);
                lemma_pick(l, flat, 6);
            }
                    assert(carries(l, flat[7])) by {
                reveal_with_fuel(clear, 17);
                lemma_pick(l, flat, 7);
            }
                    assert(carries(l, flat[8])) by {
                reveal_with_fuel(clear, 17);
                lemma_pick(l, flat, 8);
            }
                    assert(carries(l, flat[9])) by {
                reveal_with_fuel(clear, 17);
                lemma_pick(l, flat, 9);
            }
                    assert(carries(l, flat[10])) by {
                reveal_with_fuel(clear, 17);
                lemma_pick(l, flat, 10);
            }
                    assert(carries(l, flat[11])) by {
                reveal_with_fuel(clear, 17);
                lemma_pick(l, flat, 11);
            }
                    assert(carries(l, flat[12])) by {
                reveal_with_fuel(clear, 17);
                lemma_pick(l, flat, 12);
            }
                    assert(carries(l, flat[14])) by {
                reveal_with_fuel(clear, 17);
                lemma_pick(l, flat, 14);
            }
                    assert(carries(l, flat[15])) by {
                reveal_with_fuel(clear, 17);
                lemma_pick(l, flat, 15);
            }
        },
    }
}

// ----------------------------------------------------------------- decode ---

/// Both passes of a decode call. The first works on chunks of the KV positions:
/// a group for each chunk and block of heads. What it writes, the second finds in
/// slot 0, a group for each batch and head.
pub open spec fn decode_seen(
    before: RuntimeState,
    after: RuntimeState,
    x: AttnOperands,
    dims: AttnDims,
    d: u32,
    kv_capacity: usize,
    tuning: DecodeTuning,
    out_bf16: bool,
) -> bool {
    let one = launches(before, after)[0];
    let two = launches(before, after)[1];
    let chunk = tuning.chunk.len() as int;
    let chunks = one.groups.width as int;
    let scratch = scratch_of(before, chunks * dims.batch * dims.heads * (d + 2) * 4);
    &&& launches(before, after).len() == 2
    &&& one.runs(
        before,
        "flash_attn_decode_partial_h"@ + decimal(d as nat) + "_c"@ + decimal(chunk as nat) + "_r"@
            + decimal(tuning.lanes.len() as nat),
    )
    &&& gets_qkv(one, x)
    &&& one.gets(3, scratch, 0)
    &&& one.reads(4, dims.batch)
    &&& one.gets(6, x.tkv, 0)
    &&& one.reads(7, dims.heads)
    &&& one.reads(8, dims.heads_kv)
    &&& one.reads(9, dims.window)
    &&& one.reads(10, dims.scale)
    &&& one.gets(11, x.q_pos_offset, 0)
    &&& one.gets(12, x.kv_pos_offset, 0)
    &&& one.reads(13, kv_capacity as u32)
    &&& kv_capacity <= chunks * chunk
    &&& (chunks - 1) * chunk < kv_capacity
    &&& one.groups.height * (one.threads.width / 32) == dims.batch * dims.heads
    &&& one.groups.depth == 1
    &&& one.threads.width % 32 == 0
    &&& one.threads.height == 1
    &&& one.threads.depth == 1
    &&& two.runs(
        before,
        "flash_attn_decode_reduce_h"@ + decimal(d as nat) + "_c"@ + decimal(chunk as nat),
    )
    &&& two.behind(one)
    &&& two.gets(0, scratch, 0)
    &&& two.gets(1, x.o, 0)
    &&& two.reads(2, dims.batch)
    &&& two.gets(3, x.tkv, 0)
    &&& two.reads(4, dims.heads)
    &&& two.reads(5, bit(out_bf16))
    &&& two.reads(6, kv_capacity as u32)
    &&& two.groups.width == 1
    &&& two.groups.height == dims.batch * dims.heads
    &&& two.groups.depth == 1
    &&& 32 <= two.threads.width
    &&& two.threads.width <= d
    &&& two.threads.height == 1
    &&& two.threads.depth == 1
    &&& dims.tq == 1
    &&& kv_capacity <= u32::MAX
    &&& backed(before, x, dims, d, out_bf16, kv_capacity as int)
}

/// The buffer a runtime hands out next for that many bytes.
pub open spec fn scratch_of(rt: RuntimeState, bytes: int) -> Storage {
    rt.allocated(bytes as usize, BufferKind::Cold).1->Ok_0
}

/// An accepted decode call hands its first kernel queries, keys and values in slots
/// 0, 1 and 2, and its second what the first one wrote.
#[verifier::rlimit(60)]
pub broadcast proof fn law_decode(
    rt: RuntimeState,
    x: AttnOperands,
    dims: AttnDims,
    d: u32,
    kv_capacity: usize,
    tuning: DecodeTuning,
    out_bf16: bool,
)
    requires
        dims.batch > 0 && dims.heads > 0,
        decode_step(rt, x, dims, d, kv_capacity, tuning, out_bf16).1 is None,
        in_view(rt, decode_step(rt, x, dims, d, kv_capacity, tuning, out_bf16).0),
    ensures
        decode_seen(
            rt,
            (#[trigger] decode_step(rt, x, dims, d, kv_capacity, tuning, out_bf16)).0,
            x,
            dims,
            d,
            kv_capacity,
            tuning,
            out_bf16,
        ),
{
    let end = decode_step(rt, x, dims, d, kv_capacity, tuning, out_bf16).0;
    lemma_backed(rt, x, dims, d, "flash_attn_decode"@, out_bf16);
    let bytes = crate::nn::flash::scratch_elems(dims, d, kv_capacity as int, tuning.chunk) * 4;
    let s = rt.allocated(bytes as usize, BufferKind::Cold).0;
    let b = rt.allocated(bytes as usize, BufferKind::Cold).1->Ok_0;
    lemma_allocated_quiet(rt, bytes as usize, BufferKind::Cold);
    let u = decode_passes(s, x, b, dims, d, kv_capacity as u32, tuning, out_bf16).0;
    crate::runtime::lemma_handles_frame(u, b);
    lemma_launches_same(rt, u, u.retired(b));
    assert(end == u.retired(b));
    lemma_decode_passes(s, x, b, dims, d, kv_capacity as u32, tuning, out_bf16);
    lemma_launches_after_quiet(rt, s, u);
    law_chunks_cover_capacity(kv_capacity as int, tuning.chunk, kv_capacity - 1);
    let chunk = tuning.chunk.len() as int;
    let chunks = crate::nn::flash::chunks_of(kv_capacity as int, tuning.chunk);
    crate::sizes::lemma_ceil_div_covers(kv_capacity as int, chunk);
    assert(dims.batch * dims.heads * chunks * (d + 2) * 4 == chunks * dims.batch * dims.heads * (d
        + 2) * 4) by (nonlinear_arith);
}

/// The passes over one scratch buffer.
#[verifier::rlimit(60)]
proof fn lemma_decode_passes(
    rt: RuntimeState,
    x: AttnOperands,
    scratch: Storage,
    dims: AttnDims,
    d: u32,
    kv_capacity: u32,
    tuning: DecodeTuning,
    out_bf16: bool,
)
    requires
        dims.batch > 0 && dims.heads > 0,
        dims.batch * dims.heads <= u32::MAX,
        d == 128 || d == 256 || d == 512,
        kv_capacity > 0,
        decode_passes(rt, x, scratch, dims, d, kv_capacity, tuning, out_bf16).1 is None,
        in_view(rt, decode_passes(rt, x, scratch, dims, d, kv_capacity, tuning, out_bf16).0),
    ensures
        ({
            let t = decode_passes(rt, x, scratch, dims, d, kv_capacity, tuning, out_bf16).0;
            let one = launches(rt, t)[0];
            let two = launches(rt, t)[1];
            let names = crate::nn::attention::decode_names(d, tuning.chunk, tuning.lanes);
            &&& launches(rt, t).len() == 2
            &&& one.runs(rt, names.0)
            &&& two.runs(rt, names.1)
            &&& gets_qkv(one, x)
            &&& one.gets(3, scratch, 0)
            &&& one.reads(4, dims.batch)
            &&& one.gets(6, x.tkv, 0)
            &&& one.reads(7, dims.heads)
            &&& one.reads(8, dims.heads_kv)
            &&& one.reads(9, dims.window)
            &&& one.reads(10, dims.scale)
            &&& one.gets(11, x.q_pos_offset, 0)
            &&& one.gets(12, x.kv_pos_offset, 0)
            &&& one.reads(13, kv_capacity)
            &&& one.groups.width == crate::nn::flash::chunks_of(kv_capacity as int, tuning.chunk)
            &&& one.groups.height * (one.threads.width / 32) == dims.batch * dims.heads
            &&& one.groups.depth == 1
            &&& one.threads.width % 32 == 0
            &&& one.threads.height == 1
            &&& one.threads.depth == 1
            &&& two.behind(one)
            &&& two.gets(0, scratch, 0)
            &&& two.gets(1, x.o, 0)
            &&& two.reads(2, dims.batch)
            &&& two.gets(3, x.tkv, 0)
            &&& two.reads(4, dims.heads)
            &&& two.reads(5, bit(out_bf16))
            &&& two.reads(6, kv_capacity)
            &&& two.groups.width == 1
            &&& two.groups.height == dims.batch * dims.heads
            &&& two.groups.depth == 1
            &&& 32 <= two.threads.width
            &&& two.threads.width <= d
            &&& two.threads.height == 1
            &&& two.threads.depth == 1
            &&& starts(rt.ops, t.ops)
        }),
{
    let names = crate::nn::attention::decode_names(d, tuning.chunk, tuning.lanes);
    law_pipeline(rt, names.0);
    let s = rt.piped(names.0).0;
    law_pipeline(s, names.1);
    let m = s.piped(names.1).0;
    let one = partial_pass(rt.piped(names.0).1->Ok_0, x, scratch, dims, d, kv_capacity, tuning);
    let two = reduce_pass(
        s.piped(names.1).1->Ok_0,
        x,
        scratch,
        dims,
        d,
        kv_capacity,
        tuning,
        out_bf16,
    );
    lemma_pair_shows(m, one, two);
    let t = m.encoded(None, crate::dispatch::pair_fn(one, two)).0;
    crate::seen::lemma_quietly_on(rt.ops, s.ops, m.ops);
    lemma_launches_after_quiet(rt, m, t);
    assert(starts(rt.ops, m.ops)) by {
        reveal(quietly);
        reveal(starts);
    }
    lemma_starts_on(rt.ops, m.ops, t.ops);
    let a = launches(rt, t)[0];
    let b = launches(rt, t)[1];
    lemma_partial_binds(a, x, scratch, dims, kv_capacity);
    lemma_reduce_binds(b, x, scratch, dims, kv_capacity, out_bf16);
    let sgs = partial_width(dims, d, tuning.head_block) as int;
    lemma_head_blocks(dims, d, tuning.head_block);
    let h = dims.heads as int;
    assert(0 <= dims.batch * (h / sgs) <= dims.batch * h && dims.batch * (h / sgs) * sgs
        == dims.batch * h) by (nonlinear_arith)
        requires
            h % sgs == 0,
            sgs >= 1,
            h >= 0,
            dims.batch >= 0,
    ;
    crate::sizes::lemma_ceil_div_covers(kv_capacity as int, tuning.chunk.len() as int);
}

proof fn lemma_partial_binds(
    l: Launch,
    x: AttnOperands,
    scratch: Storage,
    dims: AttnDims,
    kv_capacity: u32,
)
    requires
        carries_all(l, partial_binds(x, scratch, dims, kv_capacity)),
    ensures
        gets_qkv(l, x),
        l.gets(3, scratch, 0),
        l.reads(4, dims.batch),
        l.gets(6, x.tkv, 0),
        l.reads(7, dims.heads),
        l.reads(8, dims.heads_kv),
        l.reads(9, dims.window),
        l.reads(10, dims.scale),
        l.gets(11, x.q_pos_offset, 0),
        l.gets(12, x.kv_pos_offset, 0),
        l.reads(13, kv_capacity),
{
    let binds = partial_binds(x, scratch, dims, kv_capacity);
    assert(rising(binds, 13)) by {
        reveal_with_fuel(rising, 14);
    }
    lemma_carried(l, binds);
    reveal(carried);
    assert(carries(l, binds[0]) && carries(l, binds[1]) && carries(l, binds[2]));
    assert(carries(l, binds[3]) && carries(l, binds[4]) && carries(l, binds[5]));
    assert(carries(l, binds[6]) && carries(l, binds[7]) && carries(l, binds[8]));
    assert(carries(l, binds[9]) && carries(l, binds[10]) && carries(l, binds[11]));
    assert(carries(l, binds[12]));
}

proof fn lemma_reduce_binds(
    l: Launch,
    x: AttnOperands,
    scratch: Storage,
    dims: AttnDims,
    kv_capacity: u32,
    out_bf16: bool,
)
    requires
        carries_all(l, reduce_binds(x, scratch, dims, kv_capacity, out_bf16)),
    ensures
        l.gets(0, scratch, 0),
        l.gets(1, x.o, 0),
        l.reads(2, dims.batch),
        l.gets(3, x.tkv, 0),
        l.reads(4, dims.heads),
        l.reads(5, bit(out_bf16)),
        l.reads(6, kv_capacity),
{
    let binds = reduce_binds(x, scratch, dims, kv_capacity, out_bf16);
    assert(rising(binds, 7)) by {
        reveal_with_fuel(rising, 8);
    }
    lemma_carried(l, binds);
    reveal(carried);
    assert(carries(l, binds[0]) && carries(l, binds[1]) && carries(l, binds[2]));
    assert(carries(l, binds[3]) && carries(l, binds[4]) && carries(l, binds[5]));
    assert(carries(l, binds[6]));
}

/// The heads split evenly over the simdgroups of the first pass.
proof fn lemma_head_blocks(
    dims: AttnDims,
    d: u32,
    head_block: Option<crate::nn::attention::DecodeHeadBlock>,
)
    requires
        dims.heads > 0,
    ensures
        1 <= partial_width(dims, d, head_block) <= 32,
        dims.heads as int % partial_width(dims, d, head_block) as int == 0,
{
}

/// The decode path and the row path hand their kernels the same queries, keys and
/// values: each of slots 0, 1 and 2 has the same address in both.
pub proof fn law_decode_and_rows_agree(
    rt: RuntimeState,
    x: AttnOperands,
    dims: AttnDims,
    d: u32,
    kv_capacity: usize,
    tuning: DecodeTuning,
    lanes: RowsLanes,
    groups: RowsGroups,
    out_bf16: bool,
)
    requires
        dims.batch > 0 && dims.heads > 0,
        decode_step(rt, x, dims, d, kv_capacity, tuning, out_bf16).1 is None,
        in_view(rt, decode_step(rt, x, dims, d, kv_capacity, tuning, out_bf16).0),
        rows_step(rt, x, dims, d, lanes, groups, out_bf16).1 is None,
        in_view(rt, rows_step(rt, x, dims, d, lanes, groups, out_bf16).0),
    ensures
        ({
            let one = dispatch(
                rt,
                decode_step(rt, x, dims, d, kv_capacity, tuning, out_bf16).0,
            );
            let two = dispatch(rt, rows_step(rt, x, dims, d, lanes, groups, out_bf16).0);
            &&& one.at(0) == two.at(0) == x.q.slab.address
            &&& one.at(1) == two.at(1) == x.k.slab.address
            &&& one.at(2) == two.at(2) == x.v.slab.address
            &&& one.word(13) == two.word(14)
        }),
{
    law_decode(rt, x, dims, d, kv_capacity, tuning, out_bf16);
    law_rows(rt, x, dims, d, lanes, groups, out_bf16);
    let two = dispatch(rt, rows_step(rt, x, dims, d, lanes, groups, out_bf16).0);
    let a = kv_capacity as int;
    let b = two.word(14) as int;
    let pe = dims.batch * dims.heads_kv * d;
    assert(a == b) by (nonlinear_arith)
        requires
            a * pe * 4 <= x.k.nbytes < (a + 1) * pe * 4,
            b * pe * 4 <= x.k.nbytes < (b + 1) * pe * 4,
            a > 0,
            b > 0,
    ;
}

/// A routed call: one query goes to the decode kernels, two dispatches over all
/// backed positions; more go to the row kernel.
pub open spec fn routed_seen(
    before: RuntimeState,
    after: RuntimeState,
    x: AttnOperands,
    dims: AttnDims,
    d: u32,
    out_bf16: bool,
) -> bool {
    &&& gets_qkv(dispatch(before, after), x)
    &&& dims.tq == 1 ==> launches(before, after).len() == 2
    &&& dims.tq > 1 ==> rows_seen(
        before,
        after,
        x,
        dims,
        d,
        crate::nn::attention::lanes_of(d),
        crate::nn::attention::groups_of(d),
        out_bf16,
    )
}

} // verus!
