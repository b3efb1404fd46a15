//! What the cache and sampling kernels get from an accepted call.

use vstd::prelude::*;

use crate::device::Pipeline;
use crate::dispatch::Bind;
use crate::nn::cache::{kv_ring_densify_step, kv_store_timestep_pair_step, kv_store_timestep_step};
use crate::nn::check::{at, reduction_lanes};
use crate::nn::laws::{
    lemma_apart, lemma_headed_1d, lemma_headed_groups, lemma_kernel_1d, lemma_room,
};
use crate::nn::sampling::{
    argmax_f32_pass_step, argmax_groups, sample_lanes, softcap_argmax_one_pass_step,
    softcap_logits_step, softcap_sample_step,
};
use crate::seen::{
    beside, carried, carries, covers, dispatch, from_slot, has_room, in_view, launches,
    law_launch, law_pipeline, lemma_allocated_quiet, lemma_carried_joined, lemma_carried_beside,
    lemma_launches_after_quiet, lemma_launches_same, lemma_named_launch, lemma_quietly_on, ran,
    rising,
};
use crate::sizes::{ceil_div, is_pow2, least, most, pow2_ceil};
use crate::state::RuntimeState;
use crate::tensor::{BufferKind, Storage};

verus! {

/// A store of `n` floats: from slot 0 to slot 1, at the device word in slot 3.
pub open spec fn store_seen(
    before: RuntimeState,
    after: RuntimeState,
    src: Storage,
    dst: Storage,
    dst_offset: Storage,
    n: u32,
    dst_capacity: u32,
    scalars: Seq<Bind>,
) -> bool {
    let l = dispatch(before, after);
    &&& ran(before, after, "kv_store_timestep"@)
    &&& l.gets(0, src, 0)
    &&& l.gets(1, dst, 0)
    &&& l.gets(3, dst_offset, 0)
    &&& carried(l, scalars)
    &&& covers(l, n as int)
    &&& has_room(before, src, n * 4)
    &&& has_room(before, dst, dst_capacity * 4)
    &&& has_room(before, dst_offset, 4)
    &&& n <= dst_capacity
    &&& dst.slab.id != src.slab.id
    &&& dst.slab.id != dst_offset.slab.id
}

/// An accepted store hands its kernel source, destination and offset in their slots.
#[verifier::rlimit(40)]
pub broadcast proof fn law_kv_store(
    rt: RuntimeState,
    src: Storage,
    dst: Storage,
    dst_offset: Storage,
    n: u32,
    dst_capacity: u32,
    scalars: Seq<Bind>,
)
    requires
        n > 0,
        beside(scalars, 2, 3, 3),
        kv_store_timestep_step(rt, src, dst, dst_offset, n, dst_capacity, scalars).1 is None,
        in_view(rt, kv_store_timestep_step(rt, src, dst, dst_offset, n, dst_capacity, scalars).0),
    ensures
        store_seen(
            rt,
            (#[trigger] kv_store_timestep_step(rt, src, dst, dst_offset, n, dst_capacity, scalars)).0,
            src,
            dst,
            dst_offset,
            n,
            dst_capacity,
            scalars,
        ),
{
    let t = kv_store_timestep_step(rt, src, dst, dst_offset, n, dst_capacity, scalars).0;
    let l = dispatch(rt, t);
    let head = seq![at(src, 0), at(dst, 1)];
    let tail = seq![at(dst_offset, 3)];
    lemma_kernel_1d(rt, "kv_store_timestep"@, n as usize, head + scalars + tail);
    reveal_with_fuel(rising, 3);
    lemma_carried_beside(l, head, scalars, tail, 2, 3, 3);
    reveal(carried);
    assert(carries(l, head[0]) && carries(l, head[1]) && carries(l, tail[0]));
    let o = &dst;
    let w = seq![("dst", o)];
    let r = seq![("src", &src), ("dst_offset", &dst_offset)];
    lemma_apart("kv_store_timestep"@, w, r);
    assert(w[0].1 == o && r[0].1 == src && r[1].1 == dst_offset);
    lemma_room(rt, src, n as int, 4, "kv_store_timestep src"@);
    lemma_room(rt, dst, dst_capacity as int, 4, "kv_store_timestep dst capacity"@);
    lemma_room(rt, dst_offset, 1, 4, "kv_store_timestep dst_offset"@);
}

/// A store of `n` keys and values: keys from slot 0 to slot 2, values from slot 1 to
/// slot 3, at the device word in slot 5.
pub open spec fn store_pair_seen(
    before: RuntimeState,
    after: RuntimeState,
    src_k: Storage,
    src_v: Storage,
    dst_k: Storage,
    dst_v: Storage,
    dst_offset: Storage,
    n: u32,
    dst_capacity: u32,
    scalars: Seq<Bind>,
) -> bool {
    let l = dispatch(before, after);
    &&& ran(before, after, "kv_store_timestep_pair"@)
    &&& l.gets(0, src_k, 0)
    &&& l.gets(2, dst_k, 0)
    &&& l.gets(1, src_v, 0)
    &&& l.gets(3, dst_v, 0)
    &&& l.gets(5, dst_offset, 0)
    &&& carried(l, scalars)
    &&& covers(l, n as int)
    &&& has_room(before, src_k, n * 4)
    &&& has_room(before, src_v, n * 4)
    &&& has_room(before, dst_k, dst_capacity * 4)
    &&& has_room(before, dst_v, dst_capacity * 4)
    &&& has_room(before, dst_offset, 4)
    &&& n <= dst_capacity
    &&& dst_k.slab.id != dst_v.slab.id
    &&& dst_k.slab.id != src_k.slab.id && dst_k.slab.id != src_v.slab.id
    &&& dst_v.slab.id != src_k.slab.id && dst_v.slab.id != src_v.slab.id
    &&& dst_k.slab.id != dst_offset.slab.id && dst_v.slab.id != dst_offset.slab.id
}

/// An accepted store of both hands its kernel keys beside the key cache and values
/// beside the value cache.
#[verifier::rlimit(40)]
pub broadcast proof fn law_kv_store_pair(
    rt: RuntimeState,
    src_k: Storage,
    src_v: Storage,
    dst_k: Storage,
    dst_v: Storage,
    dst_offset: Storage,
    n: u32,
    dst_capacity: u32,
    scalars: Seq<Bind>,
)
    requires
        n > 0,
        beside(scalars, 4, 5, 5),
        kv_store_timestep_pair_step(rt, src_k, src_v, dst_k, dst_v, dst_offset, n, dst_capacity, scalars).1 is None,
        in_view(rt, kv_store_timestep_pair_step(rt, src_k, src_v, dst_k, dst_v, dst_offset, n, dst_capacity, scalars).0),
    ensures
        store_pair_seen(
            rt,
            (#[trigger] kv_store_timestep_pair_step(rt, src_k, src_v, dst_k, dst_v, dst_offset, n, dst_capacity, scalars)).0,
            src_k,
            src_v,
            dst_k,
            dst_v,
            dst_offset,
            n,
            dst_capacity,
            scalars,
        ),
{
    let t = kv_store_timestep_pair_step(rt, src_k, src_v, dst_k, dst_v, dst_offset, n, dst_capacity, scalars).0;
    let l = dispatch(rt, t);
    let head = seq![at(src_k, 0), at(src_v, 1), at(dst_k, 2), at(dst_v, 3)];
    let tail = seq![at(dst_offset, 5)];
    lemma_kernel_1d(rt, "kv_store_timestep_pair"@, n as usize, head + scalars + tail);
    reveal_with_fuel(rising, 5);
    lemma_carried_beside(l, head, scalars, tail, 4, 5, 5);
    reveal(carried);
    assert(carries(l, head[0]) && carries(l, head[1]) && carries(l, head[2]));
    assert(carries(l, head[3]) && carries(l, tail[0]));
    let dk = &dst_k;
    let dv = &dst_v;
    let w = seq![("dst_k", dk), ("dst_v", dv)];
    let r = seq![("src_k", &src_k), ("src_v", &src_v), ("dst_offset", &dst_offset)];
    lemma_apart("kv_store_timestep_pair"@, w, r);
    assert(w[0].1 == dk && w[1].1 == dv && r[0].1 == src_k && r[1].1 == src_v && r[2].1
        == dst_offset);
    lemma_room(rt, src_k, n as int, 4, "kv_store_timestep_pair src_k"@);
    lemma_room(rt, src_v, n as int, 4, "kv_store_timestep_pair src_v"@);
    lemma_room(rt, dst_k, dst_capacity as int, 4, "kv_store_timestep_pair dst_k capacity"@);
    lemma_room(rt, dst_v, dst_capacity as int, 4, "kv_store_timestep_pair dst_v capacity"@);
    lemma_room(rt, dst_offset, 1, 4, "kv_store_timestep_pair dst_offset"@);
}

/// A ring of `capacity` slots laid out in order: from slot 0 to slot 1, with the
/// device words in slots 4 and 5.
pub open spec fn densify_seen(
    before: RuntimeState,
    after: RuntimeState,
    src: Storage,
    dst: Storage,
    filled: Storage,
    start: Storage,
    n_slot: u32,
    capacity: u32,
    scalars: Seq<Bind>,
) -> bool {
    let l = dispatch(before, after);
    &&& ran(before, after, "kv_ring_densify"@)
    &&& l.gets(0, src, 0)
    &&& l.gets(1, dst, 0)
    &&& l.gets(4, filled, 0)
    &&& l.gets(5, start, 0)
    &&& carried(l, scalars)
    &&& covers(l, capacity * n_slot)
    &&& has_room(before, src, capacity * n_slot * 4)
    &&& has_room(before, dst, capacity * n_slot * 4)
    &&& has_room(before, filled, 4)
    &&& has_room(before, start, 4)
    &&& dst.slab.id != src.slab.id
    &&& dst.slab.id != filled.slab.id
    &&& dst.slab.id != start.slab.id
}

/// An accepted layout of a ring hands its kernel source, destination, count and start
/// in their slots.
#[verifier::rlimit(40)]
pub broadcast proof fn law_densify(
    rt: RuntimeState,
    src: Storage,
    dst: Storage,
    filled: Storage,
    start: Storage,
    n_slot: u32,
    capacity: u32,
    scalars: Seq<Bind>,
)
    requires
        n_slot > 0,
        beside(scalars, 2, 4, 5),
        kv_ring_densify_step(rt, src, dst, filled, start, n_slot, capacity, scalars).1 is None,
        in_view(rt, kv_ring_densify_step(rt, src, dst, filled, start, n_slot, capacity, scalars).0),
    ensures
        densify_seen(
            rt,
            (#[trigger] kv_ring_densify_step(rt, src, dst, filled, start, n_slot, capacity, scalars)).0,
            src,
            dst,
            filled,
            start,
            n_slot,
            capacity,
            scalars,
        ),
{
    let t = kv_ring_densify_step(rt, src, dst, filled, start, n_slot, capacity, scalars).0;
    let l = dispatch(rt, t);
    let head = seq![at(src, 0), at(dst, 1)];
    let tail = seq![at(filled, 4), at(start, 5)];
    assert(capacity * n_slot > 0) by (nonlinear_arith)
        requires
            capacity > 0,
            n_slot > 0,
    ;
    lemma_kernel_1d(
        rt,
        "kv_ring_densify"@,
        (capacity * n_slot) as usize,
        head + scalars + tail,
    );
    reveal_with_fuel(rising, 3);
    lemma_carried_beside(l, head, scalars, tail, 2, 4, 5);
    reveal(carried);
    assert(carries(l, head[0]) && carries(l, head[1]) && carries(l, tail[0]) && carries(
        l,
        tail[1],
    ));
    let o = &dst;
    let w = seq![("dst", o)];
    let r = seq![("src", &src), ("filled", &filled), ("start", &start)];
    lemma_apart("kv_ring_densify"@, w, r);
    assert(w[0].1 == o && r[0].1 == src && r[1].1 == filled && r[2].1 == start);
    lemma_room(rt, src, capacity * n_slot, 4, "kv_ring_densify src"@);
    lemma_room(rt, dst, capacity * n_slot, 4, "kv_ring_densify dst"@);
    lemma_room(rt, filled, 1, 4, "kv_ring_densify filled"@);
    lemma_room(rt, start, 1, 4, "kv_ring_densify start"@);
}

/// Logits capped in place: the logits in slot 0, the cap in slot 1.
pub open spec fn capped_seen(
    before: RuntimeState,
    after: RuntimeState,
    logits: Storage,
    softcap: Storage,
    n: u32,
    scalars: Seq<Bind>,
) -> bool {
    let l = dispatch(before, after);
    &&& ran(before, after, "softcap_logits"@)
    &&& l.gets(0, logits, 0)
    &&& l.gets(1, softcap, 0)
    &&& carried(l, scalars)
    &&& covers(l, n as int)
    &&& has_room(before, logits, n * 4)
    &&& has_room(before, softcap, 4)
    &&& logits.slab.id != softcap.slab.id
}

/// An accepted cap hands its kernel logits and cap in their slots.
#[verifier::rlimit(40)]
pub broadcast proof fn law_softcap_logits(
    rt: RuntimeState,
    logits: Storage,
    softcap: Storage,
    n: u32,
    scalars: Seq<Bind>,
)
    requires
        n > 0,
        from_slot(scalars, 2),
        softcap_logits_step(rt, logits, softcap, n, scalars).1 is None,
        in_view(rt, softcap_logits_step(rt, logits, softcap, n, scalars).0),
    ensures
        capped_seen(
            rt,
            (#[trigger] softcap_logits_step(rt, logits, softcap, n, scalars)).0,
            logits,
            softcap,
            n,
            scalars,
        ),
{
    let t = softcap_logits_step(rt, logits, softcap, n, scalars).0;
    let l = dispatch(rt, t);
    let head = seq![at(logits, 0), at(softcap, 1)];
    reveal_with_fuel(rising, 3);
    lemma_headed_1d(rt, "softcap_logits"@, n as usize, head, scalars, 2);
    reveal(carried);
    assert(carries(l, head[0]) && carries(l, head[1]));
    let o = &logits;
    let w = seq![("logits", o)];
    let r = seq![("softcap", &softcap)];
    lemma_apart("softcap_logits"@, w, r);
    assert(w[0].1 == o && r[0].1 == softcap);
    lemma_room(rt, logits, n as int, 4, "softcap_logits logits"@);
    lemma_room(rt, softcap, 1, 4, "softcap_logits softcap"@);
}

/// A token picked from logits by one group: logits, token and cap in slots 0, 1 and 2.
pub open spec fn picked_seen(
    before: RuntimeState,
    after: RuntimeState,
    name: Seq<char>,
    logits: Storage,
    out_token: Storage,
    softcap: Storage,
    n: u32,
    scalars: Seq<Bind>,
) -> bool {
    let l = dispatch(before, after);
    &&& ran(before, after, name)
    &&& l.gets(0, logits, 0)
    &&& l.gets(1, out_token, 0)
    &&& l.gets(2, softcap, 0)
    &&& carried(l, scalars)
    &&& l.flat()
    &&& l.groups.width == 1
    &&& is_pow2(l.threads.width as int)
    &&& n > 0
    &&& has_room(before, logits, n * 4)
    &&& has_room(before, out_token, 4)
    &&& has_room(before, softcap, 4)
    &&& out_token.slab.id != logits.slab.id
    &&& out_token.slab.id != softcap.slab.id
}

/// An accepted argmax hands its kernel logits, token and cap in their slots, and the
/// widest group that the pipeline and the kernel admit.
#[verifier::rlimit(40)]
pub broadcast proof fn law_argmax_one_pass(
    rt: RuntimeState,
    logits: Storage,
    out_token: Storage,
    softcap: Storage,
    n: u32,
    scalars: Seq<Bind>,
)
    requires
        from_slot(scalars, 3),
        softcap_argmax_one_pass_step(rt, logits, out_token, softcap, n, scalars).1 is None,
        in_view(rt, softcap_argmax_one_pass_step(rt, logits, out_token, softcap, n, scalars).0),
    ensures
        ({
            let t = (#[trigger] softcap_argmax_one_pass_step(
                rt,
                logits,
                out_token,
                softcap,
                n,
                scalars,
            )).0;
            one_pass_seen(rt, t, logits, out_token, softcap, n, scalars)
        }),
{
    let t = softcap_argmax_one_pass_step(rt, logits, out_token, softcap, n, scalars).0;
    let l = dispatch(rt, t);
    let head = seq![at(logits, 0), at(out_token, 1), at(softcap, 2)];
    reveal_with_fuel(rising, 4);
    let f = |p: Pipeline| reduction_lanes(p.max_threads as int, 1024, 1024) as usize;
    if let Ok(p) = rt.piped("softcap_argmax_one_pass"@).1 {
        crate::sizes::lemma_pow2_floor(most(least(least(p.max_threads as int, 1024), 1024), 1));
    }
    lemma_headed_groups(rt, "softcap_argmax_one_pass"@, head, scalars, 3, None, 1, 1, f);
    let p = l.scene.pipeline->0;
    crate::sizes::lemma_pow2_floor(most(least(least(p.max_threads as int, 1024), 1024), 1));
    reveal(carried);
    assert(carries(l, head[0]) && carries(l, head[1]) && carries(l, head[2]));
    let o = &out_token;
    let w = seq![("out_token", o)];
    let r = seq![("logits", &logits), ("softcap", &softcap)];
    lemma_apart("softcap_argmax_one_pass"@, w, r);
    assert(w[0].1 == o && r[0].1 == logits && r[1].1 == softcap);
    lemma_room(rt, logits, n as int, 4, "softcap_argmax_one_pass logits"@);
    lemma_room(rt, out_token, 1, 4, "softcap_argmax_one_pass out_token"@);
    lemma_room(rt, softcap, 1, 4, "softcap_argmax_one_pass softcap"@);
}

/// One group of up to 1024 lanes over all logits.
pub open spec fn one_pass_seen(
    before: RuntimeState,
    after: RuntimeState,
    logits: Storage,
    out_token: Storage,
    softcap: Storage,
    n: u32,
    scalars: Seq<Bind>,
) -> bool {
    let l = dispatch(before, after);
    let p = l.scene.pipeline->0;
    &&& picked_seen(
        before,
        after,
        "softcap_argmax_one_pass"@,
        logits,
        out_token,
        softcap,
        n,
        scalars,
    )
    &&& l.threads.width <= 1024
    &&& l.threads.width <= p.max_threads || l.threads.width == 1
    &&& p.max_threads < 2 * l.threads.width || 1024 < 2 * l.threads.width
}

/// One group of up to 256 lanes, at least one for each logit.
pub open spec fn sample_seen(
    before: RuntimeState,
    after: RuntimeState,
    logits: Storage,
    out_token: Storage,
    softcap: Storage,
    n: u32,
    scalars: Seq<Bind>,
) -> bool {
    let l = dispatch(before, after);
    &&& picked_seen(before, after, "softcap_sample"@, logits, out_token, softcap, n, scalars)
    &&& n <= l.threads.width
    &&& l.threads.width <= 256
    &&& l.threads.width < 2 * n
    &&& logits.slab.id != softcap.slab.id
}

/// An accepted sample hands its kernel logits, token and cap in their slots, and a
/// lane for every logit.
#[verifier::rlimit(40)]
pub broadcast proof fn law_sample(
    rt: RuntimeState,
    logits: Storage,
    out_token: Storage,
    softcap: Storage,
    n: u32,
    scalars: Seq<Bind>,
)
    requires
        from_slot(scalars, 3),
        softcap_sample_step(rt, logits, out_token, softcap, n, scalars).1 is None,
        in_view(rt, softcap_sample_step(rt, logits, out_token, softcap, n, scalars).0),
    ensures
        sample_seen(
            rt,
            (#[trigger] softcap_sample_step(rt, logits, out_token, softcap, n, scalars)).0,
            logits,
            out_token,
            softcap,
            n,
            scalars,
        ),
{
    let t = softcap_sample_step(rt, logits, out_token, softcap, n, scalars).0;
    let l = dispatch(rt, t);
    let head = seq![at(logits, 0), at(out_token, 1), at(softcap, 2)];
    let name = "softcap_sample"@;
    let p = rt.piped(name).1->Ok_0;
    crate::sizes::lemma_pow2_ceil(n as int);
    crate::sizes::lemma_pow2_floor(
        most(least(least(p.max_threads as int, 256), pow2_ceil(n as int)), 1),
    );
    lemma_named_launch(
        rt,
        name,
        head + scalars,
        None,
        crate::device::size3(1, 1, 1),
        crate::device::size3(sample_lanes(p.max_threads, n), 1, 1),
    );
    reveal_with_fuel(rising, 4);
    lemma_carried_joined(l, head, scalars, 3);
    reveal(carried);
    assert(carries(l, head[0]) && carries(l, head[1]) && carries(l, head[2]));
    let lo = &logits;
    let o = &out_token;
    let w = seq![("logits", lo), ("out_token", o)];
    let r = seq![("softcap", &softcap)];
    lemma_apart("softcap_sample"@, w, r);
    assert(w[0].1 == lo && w[1].1 == o && r[0].1 == softcap);
    lemma_room(rt, logits, n as int, 4, "softcap_sample logits"@);
    lemma_room(rt, out_token, 1, 4, "softcap_sample out_token"@);
    lemma_room(rt, softcap, 1, 4, "softcap_sample softcap"@);
}

/// One pass of an argmax: logits, indices and values in slots 0 to 2, the indices
/// of an earlier pass in slot 4, the cap in slot 6, and a group of 256 lanes for
/// each 256 logits, which writes one index and one value.
pub open spec fn argmax_seen(
    before: RuntimeState,
    after: RuntimeState,
    logits: Storage,
    out_idx: Storage,
    out_val: Storage,
    idx_in: Option<Storage>,
    softcap: Storage,
    n: u32,
    scalars: Seq<Bind>,
) -> bool {
    let l = dispatch(before, after);
    &&& ran(before, after, "argmax_f32"@)
    &&& l.gets(0, logits, 0)
    &&& l.gets(1, out_idx, 0)
    &&& l.gets(2, out_val, 0)
    &&& idx_in matches Some(b) ==> l.gets(4, b, 0) && has_room(before, b, n * 4)
    &&& l.gets(6, softcap, 0)
    &&& carried(l, scalars)
    &&& l.flat()
    &&& l.threads.width == 256
    &&& n <= l.groups.width * 256
    &&& (l.groups.width - 1) * 256 < n
    &&& n > 0
    &&& has_room(before, logits, n * 4)
    &&& has_room(before, out_idx, l.groups.width * 4)
    &&& has_room(before, out_val, l.groups.width * 4)
    &&& has_room(before, softcap, 4)
    &&& out_idx.slab.id != out_val.slab.id
    &&& out_idx.slab.id != logits.slab.id
    &&& out_val.slab.id != logits.slab.id
}

/// An accepted pass hands its kernel every operand in its slot.
#[verifier::rlimit(60)]
pub broadcast proof fn law_argmax_pass(
    rt: RuntimeState,
    logits: Storage,
    out_idx: Storage,
    out_val: Storage,
    idx_in: Option<Storage>,
    softcap: Storage,
    n: u32,
    scalars: Seq<Bind>,
)
    requires
        beside(scalars, 3, 4, 6),
        argmax_f32_pass_step(rt, logits, out_idx, out_val, idx_in, softcap, n, scalars).1 is None,
        in_view(
            rt,
            argmax_f32_pass_step(rt, logits, out_idx, out_val, idx_in, softcap, n, scalars).0,
        ),
    ensures
        argmax_seen(
            rt,
            (#[trigger] argmax_f32_pass_step(
                rt,
                logits,
                out_idx,
                out_val,
                idx_in,
                softcap,
                n,
                scalars,
            )).0,
            logits,
            out_idx,
            out_val,
            idx_in,
            softcap,
            n,
            scalars,
        ),
{
    let name = "argmax_f32"@;
    let t = argmax_f32_pass_step(rt, logits, out_idx, out_val, idx_in, softcap, n, scalars).0;
    crate::sizes::lemma_ceil_div_covers(n as int, 256);
    law_pipeline(rt, name);
    let (s, pr) = rt.piped(name);
    let p = pr->Ok_0;
    let head = seq![at(logits, 0), at(out_idx, 1), at(out_val, 2)];
    let groups = crate::device::size3(argmax_groups(n), 1, 1);
    let lanes = crate::device::size3(256, 1, 1);
    let (m, b) = match idx_in {
        Some(b) => (s, b),
        None => (s.allocated(4, BufferKind::Cold).0, s.allocated(4, BufferKind::Cold).1->Ok_0),
    };
    let tail = seq![at(b, 4), at(softcap, 6)];
    let binds = head + scalars + tail;
    let u = m.launched(p, binds, None, groups, lanes).0;
    lemma_allocated_quiet(s, 4, BufferKind::Cold);
    crate::runtime::lemma_handles_frame(u, b);
    law_launch(m, p, binds, None, groups, lanes);
    match idx_in {
        Some(_) => {
            lemma_launches_after_quiet(rt, s, u);
        },
        None => {
            lemma_quietly_on(rt.ops, s.ops, m.ops);
            lemma_launches_after_quiet(rt, m, u);
            lemma_launches_same(rt, u, t);
        },
    }
    let l = dispatch(rt, t);
    assert(crate::seen::carries_all(l, binds));
    reveal_with_fuel(rising, 4);
    lemma_carried_beside(l, head, scalars, tail, 3, 4, 6);
    reveal(carried);
    assert(carries(l, head[0]) && carries(l, head[1]) && carries(l, head[2]));
    assert(carries(l, tail[0]) && carries(l, tail[1]));
    let oi = &out_idx;
    let ov = &out_val;
    let w = seq![("out_idx", oi), ("out_val", ov)];
    match idx_in {
        Some(x) => {
            let r = seq![("logits", &logits), ("idx_in", &x), ("softcap", &softcap)];
            lemma_apart("argmax_f32_pass"@, w, r);
            assert(w[0].1 == oi && w[1].1 == ov && r[0].1 == logits);
            lemma_room(rt, x, n as int, 4, "argmax_f32_pass idx_in"@);
        },
        None => {
            let r = seq![("logits", &logits), ("softcap", &softcap)];
            lemma_apart("argmax_f32_pass"@, w, r);
            assert(w[0].1 == oi && w[1].1 == ov && r[0].1 == logits);
        },
    }
    lemma_room(rt, logits, n as int, 4, "argmax_f32_pass logits"@);
    lemma_room(rt, out_idx, argmax_groups(n) as int, 4, "argmax_f32_pass out_idx"@);
    lemma_room(rt, out_val, argmax_groups(n) as int, 4, "argmax_f32_pass out_val"@);
    lemma_room(rt, softcap, 1, 4, "argmax_f32_pass softcap"@);
}

} // verus!
