//! What the fused norm and rotary kernel gets from an accepted call.

use vstd::prelude::*;

use crate::nn::check::{at, float_at, word_at};
use crate::nn::laws::lemma_room;
use crate::nn::rope::{
    kv_span, rope_buffer_binds, rope_rows, rope_scalars, rope_step, rope_tail, target_capacity,
    KvStoreTargetAt, QkvBuffersAt, QkvRopeDims, QkvRopeVariant,
};
use crate::seen::{
    carries, carries_all, clear, dispatch, has_room, in_view, lemma_named_launch, lemma_pick, ran,
    Launch,
};
use crate::sizes::ceil_div;
use crate::state::RuntimeState;
use crate::tensor::Storage;

verus! {

/// The arguments of the kernel: queries in slot 0 with their weights in slot 3;
/// keys and values in slots 1 and 2 with theirs in slots 4 and 5, or the queries
/// again where only these are wanted, with no KV head in slot 8; shapes, position
/// and floats behind them; a cache from slot 14 on.
pub open spec fn rope_arguments(
    l: Launch,
    variant: QkvRopeVariant,
    qkv: QkvBuffersAt,
    dims: QkvRopeDims,
    pos_offset: u32,
    pos: Option<Storage>,
    store: Option<KvStoreTargetAt>,
    q_only: bool,
) -> bool {
    &&& l.gets(0, qkv.q, 0)
    &&& l.gets(3, qkv.q_weight, 0)
    &&& q_only ==> {
        &&& l.gets(1, qkv.q, 0)
        &&& l.gets(2, qkv.q, 0)
        &&& l.gets(4, qkv.q_weight, 0)
        &&& l.gets(5, qkv.q_weight, 0)
        &&& l.reads(8, 0)
    }
    &&& !q_only ==> {
        &&& l.gets(1, qkv.k, 0)
        &&& l.gets(2, qkv.v, 0)
        &&& l.gets(4, qkv.k_weight, 0)
        &&& l.gets(5, qkv.v_weight, 0)
        &&& l.reads(8, dims.heads_kv)
    }
    &&& l.reads(6, dims.t)
    &&& l.reads(7, dims.heads_q)
    &&& l.reads(9, dims.head_dim)
    &&& l.reads(10, dims.rotary_dim)
    &&& match pos {
        Some(b) => l.gets(11, b, 0),
        None => l.reads(11, pos_offset),
    }
    &&& l.reads(12, dims.theta)
    &&& l.reads(13, dims.eps)
    &&& match store {
        Some(t) => {
            &&& l.gets(14, t.dst_k, 0)
            &&& l.gets(15, t.dst_v, 0)
            &&& l.gets(16, t.dst_offset, 0)
            &&& l.reads(17, t.capacity)
        },
        None => true,
    }
}

/// Which kernel runs, and on how much: a group has up to eight simdgroups of 32
/// lanes, one for each head row.
pub open spec fn rope_seen(
    before: RuntimeState,
    after: RuntimeState,
    variant: QkvRopeVariant,
    qkv: QkvBuffersAt,
    dims: QkvRopeDims,
    pos_offset: u32,
    pos: Option<Storage>,
    store: Option<KvStoreTargetAt>,
    q_only: bool,
) -> bool {
    let l = dispatch(before, after);
    let rows = dims.t * dims.heads_q + (if q_only {
        0int
    } else {
        2 * (dims.t * dims.heads_kv)
    });
    &&& ran(
        before,
        after,
        match variant {
            QkvRopeVariant::PosConst => "rms_qkv_rope"@,
            QkvRopeVariant::PosBuffer => "rms_qkv_rope_posbuf"@,
            QkvRopeVariant::PosBufferKvStore => "rms_qkv_rope_kv_store"@,
        },
    )
    &&& rope_arguments(l, variant, qkv, dims, pos_offset, pos, store, q_only)
    &&& l.flat()
    &&& l.threads.width % 32 == 0
    &&& 32 <= l.threads.width
    &&& l.threads.width <= 256
    &&& rows <= l.groups.width * (l.threads.width / 32)
    &&& (l.groups.width - 1) * (l.threads.width / 32) < rows
    &&& has_room(before, qkv.q, dims.t * dims.heads_q * dims.head_dim * 4)
    &&& has_room(before, qkv.q_weight, dims.head_dim * 4)
    &&& !q_only ==> {
        &&& has_room(before, qkv.k, dims.t * dims.heads_kv * dims.head_dim * 4)
        &&& has_room(before, qkv.v, dims.t * dims.heads_kv * dims.head_dim * 4)
        &&& has_room(before, qkv.k_weight, dims.head_dim * 4)
        &&& has_room(before, qkv.v_weight, dims.head_dim * 4)
    }
    &&& dims.rotary_dim <= dims.head_dim
    &&& dims.rotary_dim % 2 == 0
    &&& match store {
        Some(t) => {
            &&& has_room(before, t.dst_k, t.capacity * 4)
            &&& has_room(before, t.dst_v, t.capacity * 4)
            &&& dims.t * dims.heads_kv * dims.head_dim <= t.capacity
        },
        None => true,
    }
}

proof fn lemma_rope_const(
    l: Launch,
    variant: QkvRopeVariant,
    qkv: QkvBuffersAt,
    dims: QkvRopeDims,
    pos_offset: u32,
    pos: Option<Storage>,
    store: Option<KvStoreTargetAt>,
    q_only: bool,
)
    requires
        !q_only,
        pos is None && variant == QkvRopeVariant::PosConst,
        store is None,
        carries_all(
            l,
            rope_buffer_binds(qkv, pos, store, q_only) + rope_scalars(
                variant,
                dims,
                pos_offset,
                target_capacity(store),
            ) + rope_tail(q_only),
        ),
    ensures
        rope_arguments(l, variant, qkv, dims, pos_offset, pos, store, q_only),
{
    let flat = seq![
        at(qkv.q, 0),
        at(qkv.q_weight, 3),
        at(qkv.k, 1),
        at(qkv.v, 2),
        at(qkv.k_weight, 4),
        at(qkv.v_weight, 5),
        word_at(dims.t, 6),
        word_at(dims.heads_q, 7),
        word_at(dims.heads_kv, 8),
        word_at(dims.head_dim, 9),
        word_at(dims.rotary_dim, 10),
        word_at(pos_offset, 11),
        float_at(dims.theta, 12),
        float_at(dims.eps, 13),
    ];
    assert(rope_buffer_binds(qkv, pos, store, q_only) + rope_scalars(
        variant,
        dims,
        pos_offset,
        target_capacity(store),
    ) + rope_tail(q_only) =~= flat);
    assert(carries(l, flat[0])) by {
        reveal_with_fuel(clear, 15);
        lemma_pick(l, flat, 0);
    }
    assert(carries(l, flat[1])) by {
        reveal_with_fuel(clear, 15);
        lemma_pick(l, flat, 1);
    }
    assert(carries(l, flat[2])) by {
        reveal_with_fuel(clear, 15);
        lemma_pick(l, flat, 2);
    }
    assert(carries(l, flat[3])) by {
        reveal_with_fuel(clear, 15);
        lemma_pick(l, flat, 3);
    }
    assert(carries(l, flat[4])) by {
        reveal_with_fuel(clear, 15);
        lemma_pick(l, flat, 4);
    }
    assert(carries(l, flat[5])) by {
        reveal_with_fuel(clear, 15);
        lemma_pick(l, flat, 5);
    }
    assert(carries(l, flat[6])) by {
        reveal_with_fuel(clear, 15);
        lemma_pick(l, flat, 6);
    }
    assert(carries(l, flat[7])) by {
        reveal_with_fuel(clear, 15);
        lemma_pick(l, flat, 7);
    }
    assert(carries(l, flat[8])) by {
        reveal_with_fuel(clear, 15);
        lemma_pick(l, flat, 8);
    }
    assert(carries(l, flat[9])) by {
        reveal_with_fuel(clear, 15);
        lemma_pick(l, flat, 9);
    }
    assert(carries(l, flat[10])) by {
        reveal_with_fuel(clear, 15);
        lemma_pick(l, flat, 10);
    }
    assert(carries(l, flat[11])) by {
        reveal_with_fuel(clear, 15);
        lemma_pick(l, flat, 11);
    }
    assert(carries(l, flat[12])) by {
        reveal_with_fuel(clear, 15);
        lemma_pick(l, flat, 12);
    }
    assert(carries(l, flat[13])) by {
        reveal_with_fuel(clear, 15);
        lemma_pick(l, flat, 13);
    }
}

proof fn lemma_rope_const_q(
    l: Launch,
    variant: QkvRopeVariant,
    qkv: QkvBuffersAt,
    dims: QkvRopeDims,
    pos_offset: u32,
    pos: Option<Storage>,
    store: Option<KvStoreTargetAt>,
    q_only: bool,
)
    requires
        q_only,
        pos is None && variant == QkvRopeVariant::PosConst,
        store is None,
        carries_all(
            l,
            rope_buffer_binds(qkv, pos, store, q_only) + rope_scalars(
                variant,
                dims,
                pos_offset,
                target_capacity(store),
            ) + rope_tail(q_only),
        ),
    ensures
        rope_arguments(l, variant, qkv, dims, pos_offset, pos, store, q_only),
{
    let flat = seq![
        at(qkv.q, 0),
        at(qkv.q_weight, 3),
        at(qkv.q, 1),
        at(qkv.q, 2),
        at(qkv.q_weight, 4),
        at(qkv.q_weight, 5),
        word_at(dims.t, 6),
        word_at(dims.heads_q, 7),
        word_at(dims.heads_kv, 8),
        word_at(dims.head_dim, 9),
        word_at(dims.rotary_dim, 10),
        word_at(pos_offset, 11),
        float_at(dims.theta, 12),
        float_at(dims.eps, 13),
        word_at(0, 8),
    ];
    assert(rope_buffer_binds(qkv, pos, store, q_only) + rope_scalars(
        variant,
        dims,
        pos_offset,
        target_capacity(store),
    ) + rope_tail(q_only) =~= flat);
    assert(carries(l, flat[0])) by {
        reveal_with_fuel(clear, 16);
        lemma_pick(l, flat, 0);
    }
    assert(carries(l, flat[1])) by {
        reveal_with_fuel(clear, 16);
        lemma_pick(l, flat, 1);
    }
    assert(carries(l, flat[2])) by {
        reveal_with_fuel(clear, 16);
        lemma_pick(l, flat, 2);
    }
    assert(carries(l, flat[3])) by {
        reveal_with_fuel(clear, 16);
        lemma_pick(l, flat, 3);
    }
    assert(carries(l, flat[4])) by {
        reveal_with_fuel(clear, 16);
        lemma_pick(l, flat, 4);
    }
    assert(carries(l, flat[5])) by {
        reveal_with_fuel(clear, 16);
        lemma_pick(l, flat, 5);
    }
    assert(carries(l, flat[6])) by {
        reveal_with_fuel(clear, 16);
        lemma_pick(l, flat, 6);
    }
    assert(carries(l, flat[7])) by {
        reveal_with_fuel(clear, 16);
        lemma_pick(l, flat, 7);
    }
    assert(carries(l, flat[9])) by {
        reveal_with_fuel(clear, 16);
        lemma_pick(l, flat, 9);
    }
    assert(carries(l, flat[10])) by {
        reveal_with_fuel(clear, 16);
        lemma_pick(l, flat, 10);
    }
    assert(carries(l, flat[11])) by {
        reveal_with_fuel(clear, 16);
        lemma_pick(l, flat, 11);
    }
    assert(carries(l, flat[12])) by {
        reveal_with_fuel(clear, 16);
        lemma_pick(l, flat, 12);
    }
    assert(carries(l, flat[13])) by {
        reveal_with_fuel(clear, 16);
        lemma_pick(l, flat, 13);
    }
    assert(carries(l, flat[14])) by {
        reveal_with_fuel(clear, 16);
        lemma_pick(l, flat, 14);
    }
}

proof fn lemma_rope_buffer(
    l: Launch,
    variant: QkvRopeVariant,
    qkv: QkvBuffersAt,
    dims: QkvRopeDims,
    pos_offset: u32,
    pos: Option<Storage>,
    store: Option<KvStoreTargetAt>,
    q_only: bool,
)
    requires
        !q_only,
        pos is Some && variant != QkvRopeVariant::PosConst,
        store is None,
        carries_all(
            l,
            rope_buffer_binds(qkv, pos, store, q_only) + rope_scalars(
                variant,
                dims,
                pos_offset,
                target_capacity(store),
            ) + rope_tail(q_only),
        ),
    ensures
        rope_arguments(l, variant, qkv, dims, pos_offset, pos, store, q_only),
{
    let flat = seq![
        at(qkv.q, 0),
        at(qkv.q_weight, 3),
        at(qkv.k, 1),
        at(qkv.v, 2),
        at(qkv.k_weight, 4),
        at(qkv.v_weight, 5),
        at(pos->0, 11),
        word_at(dims.t, 6),
        word_at(dims.heads_q, 7),
        word_at(dims.heads_kv, 8),
        word_at(dims.head_dim, 9),
        word_at(dims.rotary_dim, 10),
        float_at(dims.theta, 12),
        float_at(dims.eps, 13),
    ];
    assert(rope_buffer_binds(qkv, pos, store, q_only) + rope_scalars(
        variant,
        dims,
        pos_offset,
        target_capacity(store),
    ) + rope_tail(q_only) =~= flat);
    assert(carries(l, flat[0])) by {
        reveal_with_fuel(clear, 15);
        lemma_pick(l, flat, 0);
    }
    assert(carries(l, flat[1])) by {
        reveal_with_fuel(clear, 15);
        lemma_pick(l, flat, 1);
    }
    assert(carries(l, flat[2])) by {
        reveal_with_fuel(clear, 15);
        lemma_pick(l, flat, 2);
    }
    assert(carries(l, flat[3])) by {
        reveal_with_fuel(clear, 15);
        lemma_pick(l, flat, 3);
    }
    assert(carries(l, flat[4])) by {
        reveal_with_fuel(clear, 15);
        lemma_pick(l, flat, 4);
    }
    assert(carries(l, flat[5])) by {
        reveal_with_fuel(clear, 15);
        lemma_pick(l, flat, 5);
    }
    assert(carries(l, flat[6])) by {
        reveal_with_fuel(clear, 15);
        lemma_pick(l, flat, 6);
    }
    assert(carries(l, flat[7])) by {
        reveal_with_fuel(clear, 15);
        lemma_pick(l, flat, 7);
    }
    assert(carries(l, flat[8])) by {
        reveal_with_fuel(clear, 15);
        lemma_pick(l, flat, 8);
    }
    assert(carries(l, flat[9])) by {
        reveal_with_fuel(clear, 15);
        lemma_pick(l, flat, 9);
    }
    assert(carries(l, flat[10])) by {
        reveal_with_fuel(clear, 15);
        lemma_pick(l, flat, 10);
    }
    assert(carries(l, flat[11])) by {
        reveal_with_fuel(clear, 15);
        lemma_pick(l, flat, 11);
    }
    assert(carries(l, flat[12])) by {
        reveal_with_fuel(clear, 15);
        lemma_pick(l, flat, 12);
    }
    assert(carries(l, flat[13])) by {
        reveal_with_fuel(clear, 15);
        lemma_pick(l, flat, 13);
    }
}

proof fn lemma_rope_buffer_q(
    l: Launch,
    variant: QkvRopeVariant,
    qkv: QkvBuffersAt,
    dims: QkvRopeDims,
    pos_offset: u32,
    pos: Option<Storage>,
    store: Option<KvStoreTargetAt>,
    q_only: bool,
)
    requires
        q_only,
        pos is Some && variant != QkvRopeVariant::PosConst,
        store is None,
        carries_all(
            l,
            rope_buffer_binds(qkv, pos, store, q_only) + rope_scalars(
                variant,
                dims,
                pos_offset,
                target_capacity(store),
            ) + rope_tail(q_only),
        ),
    ensures
        rope_arguments(l, variant, qkv, dims, pos_offset, pos, store, q_only),
{
    let flat = seq![
        at(qkv.q, 0),
        at(qkv.q_weight, 3),
        at(qkv.q, 1),
        at(qkv.q, 2),
        at(qkv.q_weight, 4),
        at(qkv.q_weight, 5),
        at(pos->0, 11),
        word_at(dims.t, 6),
        word_at(dims.heads_q, 7),
        word_at(dims.heads_kv, 8),
        word_at(dims.head_dim, 9),
        word_at(dims.rotary_dim, 10),
        float_at(dims.theta, 12),
        float_at(dims.eps, 13),
        word_at(0, 8),
    ];
    assert(rope_buffer_binds(qkv, pos, store, q_only) + rope_scalars(
        variant,
        dims,
        pos_offset,
        target_capacity(store),
    ) + rope_tail(q_only) =~= flat);
    assert(carries(l, flat[0])) by {
        reveal_with_fuel(clear, 16);
        lemma_pick(l, flat, 0);
    }
    assert(carries(l, flat[1])) by {
        reveal_with_fuel(clear, 16);
        lemma_pick(l, flat, 1);
    }
    assert(carries(l, flat[2])) by {
        reveal_with_fuel(clear, 16);
        lemma_pick(l, flat, 2);
    }
    assert(carries(l, flat[3])) by {
        reveal_with_fuel(clear, 16);
        lemma_pick(l, flat, 3);
    }
    assert(carries(l, flat[4])) by {
        reveal_with_fuel(clear, 16);
        lemma_pick(l, flat, 4);
    }
    assert(carries(l, flat[5])) by {
        reveal_with_fuel(clear, 16);
        lemma_pick(l, flat, 5);
    }
    assert(carries(l, flat[6])) by {
        reveal_with_fuel(clear, 16);
        lemma_pick(l, flat, 6);
    }
    assert(carries(l, flat[7])) by {
        reveal_with_fuel(clear, 16);
        lemma_pick(l, flat, 7);
    }
    assert(carries(l, flat[8])) by {
        reveal_with_fuel(clear, 16);
        lemma_pick(l, flat, 8);
    }
    assert(carries(l, flat[10])) by {
        reveal_with_fuel(clear, 16);
        lemma_pick(l, flat, 10);
    }
    assert(carries(l, flat[11])) by {
        reveal_with_fuel(clear, 16);
        lemma_pick(l, flat, 11);
    }
    assert(carries(l, flat[12])) by {
        reveal_with_fuel(clear, 16);
        lemma_pick(l, flat, 12);
    }
    assert(carries(l, flat[13])) by {
        reveal_with_fuel(clear, 16);
        lemma_pick(l, flat, 13);
    }
    assert(carries(l, flat[14])) by {
        reveal_with_fuel(clear, 16);
        lemma_pick(l, flat, 14);
    }
}

proof fn lemma_rope_store(
    l: Launch,
    variant: QkvRopeVariant,
    qkv: QkvBuffersAt,
    dims: QkvRopeDims,
    pos_offset: u32,
    pos: Option<Storage>,
    store: Option<KvStoreTargetAt>,
    q_only: bool,
)
    requires
        !q_only,
        pos is Some && variant != QkvRopeVariant::PosConst,
        store is Some,
        carries_all(
            l,
            rope_buffer_binds(qkv, pos, store, q_only) + rope_scalars(
                variant,
                dims,
                pos_offset,
                target_capacity(store),
            ) + rope_tail(q_only),
        ),
    ensures
        rope_arguments(l, variant, qkv, dims, pos_offset, pos, store, q_only),
{
    let flat = seq![
        at(qkv.q, 0),
        at(qkv.q_weight, 3),
        at(qkv.k, 1),
        at(qkv.v, 2),
        at(qkv.k_weight, 4),
        at(qkv.v_weight, 5),
        at(pos->0, 11),
        at(store->0.dst_k, 14),
        at(store->0.dst_v, 15),
        at(store->0.dst_offset, 16),
        word_at(dims.t, 6),
        word_at(dims.heads_q, 7),
        word_at(dims.heads_kv, 8),
        word_at(dims.head_dim, 9),
        word_at(dims.rotary_dim, 10),
        float_at(dims.theta, 12),
        float_at(dims.eps, 13),
        word_at(store->0.capacity, 17),
    ];
    assert(rope_buffer_binds(qkv, pos, store, q_only) + rope_scalars(
        variant,
        dims,
        pos_offset,
        target_capacity(store),
    ) + rope_tail(q_only) =~= flat);
    assert(carries(l, flat[0])) by {
        reveal_with_fuel(clear, 19);
        lemma_pick(l, flat, 0);
    }
    assert(carries(l, flat[1])) by {
        reveal_with_fuel(clear, 19);
        lemma_pick(l, flat, 1);
    }
    assert(carries(l, flat[2])) by {
        reveal_with_fuel(clear, 19);
        lemma_pick(l, flat, 2);
    }
    assert(carries(l, flat[3])) by {
        reveal_with_fuel(clear, 19);
        lemma_pick(l, flat, 3);
    }
    assert(carries(l, flat[4])) by {
        reveal_with_fuel(clear, 19);
        lemma_pick(l, flat, 4);
    }
    assert(carries(l, flat[5])) by {
        reveal_with_fuel(clear, 19);
        lemma_pick(l, flat, 5);
    }
    assert(carries(l, flat[6])) by {
        reveal_with_fuel(clear, 19);
        lemma_pick(l, flat, 6);
    }
    assert(carries(l, flat[7])) by {
        reveal_with_fuel(clear, 19);
        lemma_pick(l, flat, 7);
    }
    assert(carries(l, flat[8])) by {
        reveal_with_fuel(clear, 19);
        lemma_pick(l, flat, 8);
    }
    assert(carries(l, flat[9])) by {
        reveal_with_fuel(clear, 19);
        lemma_pick(l, flat, 9);
    }
    assert(carries(l, flat[10])) by {
        reveal_with_fuel(clear, 19);
        lemma_pick(l, flat, 10);
    }
    assert(carries(l, flat[11])) by {
        reveal_with_fuel(clear, 19);
        lemma_pick(l, flat, 11);
    }
    assert(carries(l, flat[12])) by {
        reveal_with_fuel(clear, 19);
        lemma_pick(l, flat, 12);
    }
    assert(carries(l, flat[13])) by {
        reveal_with_fuel(clear, 19);
        lemma_pick(l, flat, 13);
    }
    assert(carries(l, flat[14])) by {
        reveal_with_fuel(clear, 19);
        lemma_pick(l, flat, 14);
    }
    assert(carries(l, flat[15])) by {
        reveal_with_fuel(clear, 19);
        lemma_pick(l, flat, 15);
    }
    assert(carries(l, flat[16])) by {
        reveal_with_fuel(clear, 19);
        lemma_pick(l, flat, 16);
    }
    assert(carries(l, flat[17])) by {
        reveal_with_fuel(clear, 19);
        lemma_pick(l, flat, 17);
    }
}

/// An accepted call hands its kernel every operand in its slot.
#[verifier::rlimit(40)]
pub broadcast proof fn law_rope(
    rt: RuntimeState,
    variant: QkvRopeVariant,
    qkv: QkvBuffersAt,
    dims: QkvRopeDims,
    pos_offset: u32,
    pos: Option<Storage>,
    store: Option<KvStoreTargetAt>,
    q_only: bool,
)
    requires
        dims.t > 0,
        dims.heads_q > 0,
        rope_step(rt, variant, qkv, dims, pos_offset, pos, store, q_only).1 is None,
        in_view(rt, rope_step(rt, variant, qkv, dims, pos_offset, pos, store, q_only).0),
    ensures
        rope_seen(
            rt,
            (#[trigger] rope_step(rt, variant, qkv, dims, pos_offset, pos, store, q_only)).0,
            variant,
            qkv,
            dims,
            pos_offset,
            pos,
            store,
            q_only,
        ),
{
    let t = rope_step(rt, variant, qkv, dims, pos_offset, pos, store, q_only).0;
    let l = dispatch(rt, t);
    let name = variant.kernel();
    let p = rt.piped(name).1->Ok_0;
    let n = dims.rows(q_only);
    assert(0 < dims.t * dims.heads_q && 0 <= dims.t * dims.heads_kv) by (nonlinear_arith)
        requires
            dims.t > 0,
            dims.heads_q > 0,
            dims.heads_kv >= 0,
    ;
    let r = rope_rows(p.max_threads);
    crate::sizes::lemma_ceil_div_covers(n, r);
    lemma_named_launch(
        rt,
        name,
        rope_buffer_binds(qkv, pos, store, q_only) + rope_scalars(
            variant,
            dims,
            pos_offset,
            target_capacity(store),
        ) + rope_tail(q_only),
        None,
        crate::device::size3(ceil_div(n, r) as usize, 1, 1),
        crate::device::size3((r * 32) as usize, 1, 1),
    );
    if store is Some {
        lemma_rope_store(l, variant, qkv, dims, pos_offset, pos, store, q_only);
    } else if pos is Some {
        if q_only {
            lemma_rope_buffer_q(l, variant, qkv, dims, pos_offset, pos, store, q_only);
        } else {
            lemma_rope_buffer(l, variant, qkv, dims, pos_offset, pos, store, q_only);
        }
    } else if q_only {
        lemma_rope_const_q(l, variant, qkv, dims, pos_offset, pos, store, q_only);
    } else {
        lemma_rope_const(l, variant, qkv, dims, pos_offset, pos, store, q_only);
    }
    let d = dims.head_dim as int;
    lemma_room(rt, qkv.q, dims.t * dims.heads_q * d, 4, "rms_qkv_rope q"@);
    lemma_room(rt, qkv.q_weight, d, 4, "rms_qkv_rope q_weight"@);
    if !q_only {
        lemma_room(rt, qkv.k, kv_span(dims), 4, "rms_qkv_rope k"@);
        lemma_room(rt, qkv.v, kv_span(dims), 4, "rms_qkv_rope v"@);
        lemma_room(rt, qkv.k_weight, d, 4, "rms_qkv_rope k_weight"@);
        lemma_room(rt, qkv.v_weight, d, 4, "rms_qkv_rope v_weight"@);
    }
    if let Some(s) = store {
        lemma_room(rt, s.dst_k, s.capacity as int, 4, "rms_qkv_rope dst_k capacity"@);
        lemma_room(rt, s.dst_v, s.capacity as int, 4, "rms_qkv_rope dst_v capacity"@);
    }
}

} // verus!
