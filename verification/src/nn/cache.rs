//! KV-cache stores and the ring-buffer densify.

use vstd::prelude::*;

use crate::dispatch::{launch_1d, Bind};
use crate::nn::check::{
    at, bind_list, buf, disjoint_problem, elems, encodes, indexing_problem, overflow_message,
    require, require_1d_indexable, require_disjoint_writes, require_problem, word, word_at, WORD,
};
use crate::runtime::GpuRuntime;
use crate::state::RuntimeState;
use crate::tensor::{GpuBuffer, Storage};
use crate::text::{decimal, first, owned, reports, unless, Msg};
use crate::seen::{beside, carried, dispatch, in_view, rising};
use crate::nn::cache_laws::{densify_seen, law_densify, law_kv_store, law_kv_store_pair, store_pair_seen, store_seen};

verus! {

/// Where a cache is smaller than what a store writes.
pub open spec fn cache_room_problem(what: Seq<char>, n: u32, dst_capacity: u32) -> Option<Seq<char>> {
    unless(
        dst_capacity >= n,
        what + ": dst_capacity "@ + decimal(dst_capacity as nat) + " is smaller than n "@ + decimal(
            n as nat,
        ),
    )
}

fn require_cache_room(what: &str, n: u32, dst_capacity: u32) -> (r: Result<(), String>)
    ensures
        reports(r, cache_room_problem(what@, n, dst_capacity)),
{
    if dst_capacity < n {
        return Err(
            Msg::new(what).text(": dst_capacity ").num(dst_capacity as usize).text(
                " is smaller than n ",
            ).num(n as usize).done(),
        );
    }
    Ok(())
}

/// Effect of [`kv_store_timestep_with_scalars`].
pub open spec fn kv_store_timestep_step(
    rt: RuntimeState,
    src: Storage,
    dst: Storage,
    dst_offset: Storage,
    n: u32,
    dst_capacity: u32,
    scalars: Seq<Bind>,
) -> (RuntimeState, Option<Seq<char>>) {
    rt.guarded(
        first(
            require_problem(rt.id, src, n as int, 4, "kv_store_timestep src"@),
            first(
                require_problem(rt.id, dst_offset, 1, 4, "kv_store_timestep dst_offset"@),
                first(
                    cache_room_problem("kv_store_timestep"@, n, dst_capacity),
                    require_problem(
                        rt.id,
                        dst,
                        dst_capacity as int,
                        4,
                        "kv_store_timestep dst capacity"@,
                    ),
                ),
            ),
        ),
        n == 0,
        disjoint_problem(
            "kv_store_timestep"@,
            seq![("dst", &dst)],
            seq![("src", &src), ("dst_offset", &dst_offset)],
        ),
        rt.kernel_1d(
            "kv_store_timestep"@,
            n as usize,
            seq![at(src, 0), at(dst, 1)] + scalars + seq![at(dst_offset, 3)],
        ),
    )
}

/// [`kv_store_timestep`] with caller-supplied scalar binds: 2 = `n`,
/// 4 = `dst_capacity`.
pub fn kv_store_timestep_with_scalars(
    rt: &mut GpuRuntime,
    src: &GpuBuffer,
    dst: &GpuBuffer,
    dst_offset: &GpuBuffer,
    n: u32,
    dst_capacity: u32,
    scalars: &[Bind],
) -> (r: Result<(), String>)
    requires
        old(rt).inv(),
    ensures
        final(rt).inv(),
        encodes(
            old(rt)@,
            final(rt)@,
            r,
            kv_store_timestep_step(old(rt)@, src@, dst@, dst_offset@, n, dst_capacity, scalars@),
        ),
        r is Ok && n > 0 && beside(scalars@, 2, 3, 3) && in_view(old(rt)@, final(rt)@) ==> store_seen(
            old(rt)@,
            final(rt)@,
            src@,
            dst@,
            dst_offset@,
            n,
            dst_capacity,
            scalars@,
        ),
{
    broadcast use law_kv_store;

    let src = &src.at();
    let dst = &dst.at();
    let dst_offset = &dst_offset.at();
    let id: u64 = rt.id();
    require(id, src, n as usize, WORD, "kv_store_timestep src")?;
    require(id, dst_offset, 1, WORD, "kv_store_timestep dst_offset")?;
    require_cache_room("kv_store_timestep", n, dst_capacity)?;
    require(id, dst, dst_capacity as usize, WORD, "kv_store_timestep dst capacity")?;
    if n == 0 {
        return Ok(());
    }
    let writes = [("dst", dst)];
    let reads = [("src", src), ("dst_offset", dst_offset)];
    assert(writes@ =~= seq![("dst", dst)]);
    assert(reads@ =~= seq![("src", src), ("dst_offset", dst_offset)]);
    require_disjoint_writes("kv_store_timestep", &writes, &reads)?;
    let p = rt.pipeline("kv_store_timestep")?;
    let head = [buf(src, 0), buf(dst, 1)];
    assert(head@ =~= seq![at(*src, 0), at(*dst, 1)]);
    let binds = bind_list(&head, scalars);
    let tail = [buf(dst_offset, 3)];
    assert(tail@ =~= seq![at(*dst_offset, 3)]);
    let binds = bind_list(binds.as_slice(), &tail);
    launch_1d(rt, &p, n as usize, binds.as_slice())
}

/// `dst[*dst_offset + i] = src[i]` for `i < n`.
///
/// `dst_offset` is a device word, so that an indirect command buffer sees a stable
/// address whose contents move. `dst_capacity` is the logical capacity of `dst` in
/// floats; it covers `n` and is backed by the allocation, and the kernel refuses
/// any live offset that would cross it. `dst` may not alias `src` or `dst_offset`.
pub fn kv_store_timestep(
    rt: &mut GpuRuntime,
    src: &GpuBuffer,
    dst: &GpuBuffer,
    dst_offset: &GpuBuffer,
    n: u32,
    dst_capacity: u32,
) -> (r: Result<(), String>)
    requires
        old(rt).inv(),
    ensures
        final(rt).inv(),
        encodes(
            old(rt)@,
            final(rt)@,
            r,
            kv_store_timestep_step(
                old(rt)@,
                src@,
                dst@,
                dst_offset@,
                n,
                dst_capacity,
                seq![word_at(n, 2), word_at(dst_capacity, 4)],
            ),
        ),
        r is Ok && n > 0 && in_view(old(rt)@, final(rt)@) ==> ({
                let l = dispatch(old(rt)@, final(rt)@);
                &&& store_seen(
                    old(rt)@,
                    final(rt)@,
                    src@,
                    dst@,
                    dst_offset@,
                    n,
                    dst_capacity,
                    Seq::empty(),
                )
                &&& l.reads(2, n)
                &&& l.reads(4, dst_capacity)
            }),
{
    proof {
        reveal_with_fuel(rising, 8);
        reveal(carried);
    }
    let scalars = [word(n, 2), word(dst_capacity, 4)];
    assert(scalars@ =~= seq![word_at(n, 2), word_at(dst_capacity, 4)]);
    kv_store_timestep_with_scalars(rt, src, dst, dst_offset, n, dst_capacity, &scalars)
}

/// Effect of [`kv_store_timestep_pair_with_scalars`].
pub open spec fn kv_store_timestep_pair_step(
    rt: RuntimeState,
    src_k: Storage,
    src_v: Storage,
    dst_k: Storage,
    dst_v: Storage,
    dst_offset: Storage,
    n: u32,
    dst_capacity: u32,
    scalars: Seq<Bind>,
) -> (RuntimeState, Option<Seq<char>>) {
    rt.guarded(
        first(
            require_problem(rt.id, src_k, n as int, 4, "kv_store_timestep_pair src_k"@),
            first(
                require_problem(rt.id, src_v, n as int, 4, "kv_store_timestep_pair src_v"@),
                first(
                    require_problem(rt.id, dst_offset, 1, 4, "kv_store_timestep_pair dst_offset"@),
                    first(
                        cache_room_problem("kv_store_timestep_pair"@, n, dst_capacity),
                        first(
                            require_problem(
                                rt.id,
                                dst_k,
                                dst_capacity as int,
                                4,
                                "kv_store_timestep_pair dst_k capacity"@,
                            ),
                            require_problem(
                                rt.id,
                                dst_v,
                                dst_capacity as int,
                                4,
                                "kv_store_timestep_pair dst_v capacity"@,
                            ),
                        ),
                    ),
                ),
            ),
        ),
        n == 0,
        disjoint_problem(
            "kv_store_timestep_pair"@,
            seq![("dst_k", &dst_k), ("dst_v", &dst_v)],
            seq![("src_k", &src_k), ("src_v", &src_v), ("dst_offset", &dst_offset)],
        ),
        rt.kernel_1d(
            "kv_store_timestep_pair"@,
            n as usize,
            seq![at(src_k, 0), at(src_v, 1), at(dst_k, 2), at(dst_v, 3)]
                + scalars
                + seq![at(dst_offset, 5)],
        ),
    )
}

/// [`kv_store_timestep_pair`] with caller-supplied scalar binds: 4 =
/// `n`, 6 = `dst_capacity`.
pub fn kv_store_timestep_pair_with_scalars(
    rt: &mut GpuRuntime,
    src_k: &GpuBuffer,
    src_v: &GpuBuffer,
    dst_k: &GpuBuffer,
    dst_v: &GpuBuffer,
    dst_offset: &GpuBuffer,
    n: u32,
    dst_capacity: u32,
    scalars: &[Bind],
) -> (r: Result<(), String>)
    requires
        old(rt).inv(),
    ensures
        final(rt).inv(),
        encodes(
            old(rt)@,
            final(rt)@,
            r,
            kv_store_timestep_pair_step(
                old(rt)@,
                src_k@,
                src_v@,
                dst_k@,
                dst_v@,
                dst_offset@,
                n,
                dst_capacity,
                scalars@,
            ),
        ),
        r is Ok && n > 0 && beside(scalars@, 4, 5, 5) && in_view(old(rt)@, final(rt)@) ==> store_pair_seen(
            old(rt)@,
            final(rt)@,
            src_k@,
            src_v@,
            dst_k@,
            dst_v@,
            dst_offset@,
            n,
            dst_capacity,
            scalars@,
        ),
{
    broadcast use law_kv_store_pair;

    let src_k = &src_k.at();
    let src_v = &src_v.at();
    let dst_k = &dst_k.at();
    let dst_v = &dst_v.at();
    let dst_offset = &dst_offset.at();
    let id: u64 = rt.id();
    require(id, src_k, n as usize, WORD, "kv_store_timestep_pair src_k")?;
    require(id, src_v, n as usize, WORD, "kv_store_timestep_pair src_v")?;
    require(id, dst_offset, 1, WORD, "kv_store_timestep_pair dst_offset")?;
    require_cache_room("kv_store_timestep_pair", n, dst_capacity)?;
    require(id, dst_k, dst_capacity as usize, WORD, "kv_store_timestep_pair dst_k capacity")?;
    require(id, dst_v, dst_capacity as usize, WORD, "kv_store_timestep_pair dst_v capacity")?;
    if n == 0 {
        return Ok(());
    }
    let writes = [("dst_k", dst_k), ("dst_v", dst_v)];
    let reads = [("src_k", src_k), ("src_v", src_v), ("dst_offset", dst_offset)];
    assert(writes@ =~= seq![("dst_k", dst_k), ("dst_v", dst_v)]);
    assert(reads@ =~= seq![("src_k", src_k), ("src_v", src_v), ("dst_offset", dst_offset)]);
    require_disjoint_writes("kv_store_timestep_pair", &writes, &reads)?;
    let p = rt.pipeline("kv_store_timestep_pair")?;
    let head = [buf(src_k, 0), buf(src_v, 1), buf(dst_k, 2), buf(dst_v, 3)];
    assert(head@ =~= seq![at(*src_k, 0), at(*src_v, 1), at(*dst_k, 2), at(*dst_v, 3)]);
    let binds = bind_list(&head, scalars);
    let tail = [buf(dst_offset, 5)];
    assert(tail@ =~= seq![at(*dst_offset, 5)]);
    let binds = bind_list(binds.as_slice(), &tail);
    launch_1d(rt, &p, n as usize, binds.as_slice())
}

/// [`kv_store_timestep`] for K and V in one dispatch. The two destinations are
/// distinct and alias neither source nor the offset.
pub fn kv_store_timestep_pair(
    rt: &mut GpuRuntime,
    src_k: &GpuBuffer,
    src_v: &GpuBuffer,
    dst_k: &GpuBuffer,
    dst_v: &GpuBuffer,
    dst_offset: &GpuBuffer,
    n: u32,
    dst_capacity: u32,
) -> (r: Result<(), String>)
    requires
        old(rt).inv(),
    ensures
        final(rt).inv(),
        encodes(
            old(rt)@,
            final(rt)@,
            r,
            kv_store_timestep_pair_step(
                old(rt)@,
                src_k@,
                src_v@,
                dst_k@,
                dst_v@,
                dst_offset@,
                n,
                dst_capacity,
                seq![word_at(n, 4), word_at(dst_capacity, 6)],
            ),
        ),
        r is Ok && n > 0 && in_view(old(rt)@, final(rt)@) ==> ({
                let l = dispatch(old(rt)@, final(rt)@);
                &&& store_pair_seen(
                    old(rt)@,
                    final(rt)@,
                    src_k@,
                    src_v@,
                    dst_k@,
                    dst_v@,
                    dst_offset@,
                    n,
                    dst_capacity,
                    Seq::empty(),
                )
                &&& l.reads(4, n)
                &&& l.reads(6, dst_capacity)
            }),
{
    proof {
        reveal_with_fuel(rising, 8);
        reveal(carried);
    }
    let scalars = [word(n, 4), word(dst_capacity, 6)];
    assert(scalars@ =~= seq![word_at(n, 4), word_at(dst_capacity, 6)]);
    kv_store_timestep_pair_with_scalars(
        rt,
        src_k,
        src_v,
        dst_k,
        dst_v,
        dst_offset,
        n,
        dst_capacity,
        &scalars,
    )
}

/// Effect of [`kv_ring_densify_with_scalars`].
pub open spec fn kv_ring_densify_step(
    rt: RuntimeState,
    src: Storage,
    dst: Storage,
    filled: Storage,
    start: Storage,
    n_slot: u32,
    capacity: u32,
    scalars: Seq<Bind>,
) -> (RuntimeState, Option<Seq<char>>) {
    let ring = capacity * n_slot;
    rt.guarded(
        first(
            unless(
                capacity != 0,
                "kv_ring_densify: capacity must be non-zero (kernel takes % capacity)"@,
            ),
            first(
                unless(ring <= usize::MAX, overflow_message("kv_ring_densify"@)),
                first(
                    indexing_problem(ring, "kv_ring_densify fixed grid"@),
                    first(
                        require_problem(rt.id, src, ring, 4, "kv_ring_densify src"@),
                        first(
                            require_problem(rt.id, dst, ring, 4, "kv_ring_densify dst"@),
                            first(
                                require_problem(rt.id, filled, 1, 4, "kv_ring_densify filled"@),
                                require_problem(rt.id, start, 1, 4, "kv_ring_densify start"@),
                            ),
                        ),
                    ),
                ),
            ),
        ),
        ring == 0,
        disjoint_problem(
            "kv_ring_densify"@,
            seq![("dst", &dst)],
            seq![("src", &src), ("filled", &filled), ("start", &start)],
        ),
        rt.kernel_1d(
            "kv_ring_densify"@,
            ring as usize,
            seq![at(src, 0), at(dst, 1)] + scalars + seq![at(filled, 4), at(start, 5)],
        ),
    )
}

/// [`kv_ring_densify`] with caller-supplied scalar binds: 2 = `n_slot`,
/// 3 = `capacity`.
pub fn kv_ring_densify_with_scalars(
    rt: &mut GpuRuntime,
    src: &GpuBuffer,
    dst: &GpuBuffer,
    filled: &GpuBuffer,
    start: &GpuBuffer,
    n_slot: u32,
    capacity: u32,
    scalars: &[Bind],
) -> (r: Result<(), String>)
    requires
        old(rt).inv(),
    ensures
        final(rt).inv(),
        encodes(
            old(rt)@,
            final(rt)@,
            r,
            kv_ring_densify_step(old(rt)@, src@, dst@, filled@, start@, n_slot, capacity, scalars@),
        ),
        r is Ok && n_slot > 0 && beside(scalars@, 2, 4, 5) && in_view(old(rt)@, final(rt)@) ==> densify_seen(
            old(rt)@,
            final(rt)@,
            src@,
            dst@,
            filled@,
            start@,
            n_slot,
            capacity,
            scalars@,
        ),
{
    broadcast use law_densify;

    let src = &src.at();
    let dst = &dst.at();
    let filled = &filled.at();
    let start = &start.at();
    let id: u64 = rt.id();
    if capacity == 0 {
        return Err(
            owned("kv_ring_densify: capacity must be non-zero (kernel takes % capacity)"),
        );
    }
    let ring: usize = elems(capacity, n_slot, "kv_ring_densify")?;
    require_1d_indexable(ring, "kv_ring_densify fixed grid")?;
    require(id, src, ring, WORD, "kv_ring_densify src")?;
    require(id, dst, ring, WORD, "kv_ring_densify dst")?;
    require(id, filled, 1, WORD, "kv_ring_densify filled")?;
    require(id, start, 1, WORD, "kv_ring_densify start")?;
    if ring == 0 {
        return Ok(());
    }
    let writes = [("dst", dst)];
    let reads = [("src", src), ("filled", filled), ("start", start)];
    assert(writes@ =~= seq![("dst", dst)]);
    assert(reads@ =~= seq![("src", src), ("filled", filled), ("start", start)]);
    require_disjoint_writes("kv_ring_densify", &writes, &reads)?;
    let p = rt.pipeline("kv_ring_densify")?;
    let head = [buf(src, 0), buf(dst, 1)];
    assert(head@ =~= seq![at(*src, 0), at(*dst, 1)]);
    let binds = bind_list(&head, scalars);
    let tail = [buf(filled, 4), buf(start, 5)];
    assert(tail@ =~= seq![at(*filled, 4), at(*start, 5)]);
    let binds = bind_list(binds.as_slice(), &tail);
    launch_1d(rt, &p, ring, binds.as_slice())
}

/// Chronological densify from a ring buffer: `dst[t] = src[(start + t) % capacity]`.
/// `filled` and `start` are device words.
pub fn kv_ring_densify(
    rt: &mut GpuRuntime,
    src: &GpuBuffer,
    dst: &GpuBuffer,
    filled: &GpuBuffer,
    start: &GpuBuffer,
    n_slot: u32,
    capacity: u32,
) -> (r: Result<(), String>)
    requires
        old(rt).inv(),
    ensures
        final(rt).inv(),
        encodes(
            old(rt)@,
            final(rt)@,
            r,
            kv_ring_densify_step(
                old(rt)@,
                src@,
                dst@,
                filled@,
                start@,
                n_slot,
                capacity,
                seq![word_at(n_slot, 2), word_at(capacity, 3)],
            ),
        ),
        r is Ok && n_slot > 0 && in_view(old(rt)@, final(rt)@) ==> ({
                let l = dispatch(old(rt)@, final(rt)@);
                &&& densify_seen(
                    old(rt)@,
                    final(rt)@,
                    src@,
                    dst@,
                    filled@,
                    start@,
                    n_slot,
                    capacity,
                    Seq::empty(),
                )
                &&& l.reads(2, n_slot)
                &&& l.reads(3, capacity)
            }),
{
    proof {
        reveal_with_fuel(rising, 8);
        reveal(carried);
    }
    let scalars = [word(n_slot, 2), word(capacity, 3)];
    assert(scalars@ =~= seq![word_at(n_slot, 2), word_at(capacity, 3)]);
    kv_ring_densify_with_scalars(rt, src, dst, filled, start, n_slot, capacity, &scalars)
}

} // verus!
