//! Where every slab is: cached, waiting for the device, or held by handles. No
//! slab is in two of these places, so that storage which some handle names is
//! never handed out again.

use vstd::prelude::*;

use crate::device::DeviceOp;
use crate::pool::{forgotten, is_bucket, lemma_numbered, newest, numbered, trimmed, Grant};
use crate::runtime::{lemma_allocated_frame, lemma_committed_frame, lemma_handles_frame};
use crate::state::{
    arena_at, arena_buffers, arenas_apart, arenas_off, stored, succ_event, BumpState, Held,
    RuntimeState,
};
use crate::tensor::{BufferKind, Slab, Storage};

verus! {

/// The storage is in order, and `slab` is a known slab in none of its places.
pub open spec fn apart(
    free: Seq<Slab>,
    pending: Seq<Slab>,
    held: Map<u64, Held>,
    next: u64,
    slab: Slab,
) -> bool {
    &&& stored(free, pending, held, next)
    &&& slab.id < next
    &&& is_bucket(slab.length as int)
    &&& !held.contains_key(slab.id)
    &&& forall|i: int|
        0 <= i < free.len() + pending.len() ==> (#[trigger] (free + pending)[i]).id != slab.id
}

/// Taking a slab out of the cache leaves it in no place.
pub proof fn lemma_removed(
    free: Seq<Slab>,
    pending: Seq<Slab>,
    held: Map<u64, Held>,
    next: u64,
    at: int,
)
    requires
        stored(free, pending, held, next),
        0 <= at < free.len(),
        is_bucket(free[at].length as int),
    ensures
        apart(free.remove(at), pending, held, next, free[at]),
{
    reveal(stored);
    let idle = free + pending;
    let rest = free.remove(at) + pending;
    assert(idle[at] == free[at]);
    assert forall|i: int| 0 <= i < rest.len() implies #[trigger] rest[i] == idle[if i < at {
        i
    } else {
        i + 1
    }] by {
        if i < at {
            assert(free.remove(at)[i] == free[i]);
        } else if i < free.len() - 1 {
            assert(free.remove(at)[i] == free[i + 1]);
        }
    }
}

/// A slab of the next number is in no place.
pub proof fn lemma_created(s: RuntimeState, slab: Slab)
    requires
        s.wf(),
        slab.id == s.serials.slab,
        slab.id < u64::MAX,
        is_bucket(slab.length as int),
    ensures
        apart(s.pool.free, s.pending, s.held, (s.serials.slab + 1) as u64, slab),
{
    reveal(stored);
}

/// A slab that a request reuses is in no place any more.
pub proof fn lemma_reused(s: RuntimeState, nbytes: usize, slab: Slab)
    requires
        shelved(s),
        s.pool.granted(nbytes as int).1 == Grant::Reuse(slab),
    ensures
        apart(s.pool.granted(nbytes as int).0.free, s.pending, s.held, s.serials.slab, slab),
{
    let at = newest(s.pool.free, crate::pool::bucket(nbytes as int), s.pool.free.len() as int);
    lemma_removed(s.pool.free, s.pending, s.held, s.serials.slab, at);
}

/// The first handle of a slab keeps the storage in order.
pub proof fn lemma_handed(
    free: Seq<Slab>,
    pending: Seq<Slab>,
    held: Map<u64, Held>,
    next: u64,
    slab: Slab,
    kind: BufferKind,
)
    requires
        apart(free, pending, held, next, slab),
    ensures
        stored(free, pending, held.insert(slab.id, Held { slab, kind, owners: 1 }), next),
{
    reveal(stored);
}

/// A slab whose last handle is given up waits, or is gone.
pub proof fn lemma_last(s: RuntimeState, id: u64)
    requires
        s.wf(),
        s.held.contains_key(id),
    ensures
        is_bucket(s.held[id].slab.length as int),
        stored(s.pool.free, s.pending, s.held.remove(id), s.serials.slab),
        stored(
            s.pool.free,
            s.pending.push(s.held[id].slab),
            s.held.remove(id),
            s.serials.slab,
        ),
{
    reveal(stored);
    let slab = s.held[id].slab;
    let idle = s.pool.free + s.pending;
    let more = s.pool.free + s.pending.push(slab);
    assert(more =~= idle.push(slab));
}

/// Without the waiting slabs the storage is in order.
pub proof fn lemma_fewer(free: Seq<Slab>, pending: Seq<Slab>, held: Map<u64, Held>, next: u64)
    requires
        stored(free, pending, held, next),
    ensures
        stored(free, Seq::empty(), held, next),
{
    reveal(stored);
    let idle = free + pending;
    let rest = free + Seq::<Slab>::empty();
    assert forall|i: int| 0 <= i < rest.len() implies #[trigger] rest[i] == idle[i] by {}
}

/// The first waiting slab goes to the cache, or is gone.
pub proof fn lemma_drains(free: Seq<Slab>, pending: Seq<Slab>, held: Map<u64, Held>, next: u64)
    requires
        stored(free, pending, held, next),
        pending.len() > 0,
    ensures
        stored(free, pending.drop_first(), held, next),
        stored(free.push(pending[0]), pending.drop_first(), held, next),
{
    reveal(stored);
    let idle = free + pending;
    let moved = free.push(pending[0]) + pending.drop_first();
    let less = free + pending.drop_first();
    assert(moved =~= idle);
    assert forall|i: int| 0 <= i < less.len() implies #[trigger] less[i] == idle[if i < free.len() {
        i
    } else {
        i + 1
    }] by {}
}

/// Trimming the cache keeps the storage in order.
pub proof fn lemma_capped(
    free: Seq<Slab>,
    pending: Seq<Slab>,
    held: Map<u64, Held>,
    next: u64,
    cap: int,
)
    requires
        stored(free, pending, held, next),
        forall|i: int| 0 <= i < free.len() ==> is_bucket(#[trigger] free[i].length as int),
    ensures
        stored(trimmed(free, cap), pending, held, next),
    decreases free.len(),
{
    let at = newest(
        free,
        crate::pool::longest(free, free.len() as int),
        free.len() as int,
    );
    if crate::pool::total_length(free) > cap && 0 <= at < free.len() {
        lemma_removed(free, pending, held, next, at);
        assert forall|i: int| 0 <= i < free.len() - 1 implies is_bucket(
            #[trigger] free.remove(at)[i].length as int,
        ) by {
            if i < at {
                assert(free.remove(at)[i] == free[i]);
            } else {
                assert(free.remove(at)[i] == free[i + 1]);
            }
        }
        lemma_capped(free.remove(at), pending, held, next, cap);
    }
}

/// An empty cache keeps the storage in order.
pub proof fn lemma_cleared(free: Seq<Slab>, pending: Seq<Slab>, held: Map<u64, Held>, next: u64)
    requires
        stored(free, pending, held, next),
    ensures
        stored(Seq::empty(), pending, held, next),
{
    reveal(stored);
    let idle = free + pending;
    let rest = Seq::<Slab>::empty() + pending;
    assert forall|i: int| 0 <= i < rest.len() implies #[trigger] rest[i] == idle[free.len()
        + i] by {}
}

/// Striking a slab from every place keeps the storage in order.
pub proof fn lemma_struck(
    free: Seq<Slab>,
    pending: Seq<Slab>,
    held: Map<u64, Held>,
    next: u64,
    id: u64,
)
    requires
        stored(free, pending, held, next),
    ensures
        stored(forgotten(free, id), forgotten(pending, id), held.remove(id), next),
        forall|i: int|
            0 <= i < forgotten(free, id).len() ==> (#[trigger] forgotten(free, id)[i]).id != id,
{
    reveal(stored);
    let f = numbered(free, id, free.len() as int);
    let p = numbered(pending, id, pending.len() as int);
    let idle = free + pending;
    let ff = forgotten(free, id);
    let pp = forgotten(pending, id);
    let rest = ff + pp;
    let to = |i: int|
        if i < ff.len() {
            if 0 <= f < free.len() && i >= f {
                i + 1
            } else {
                i
            }
        } else {
            let k = i - ff.len();
            free.len() + if 0 <= p < pending.len() && k >= p {
                k + 1
            } else {
                k
            }
        };
    assert forall|i: int| 0 <= i < rest.len() implies #[trigger] rest[i] == idle[to(i)] by {}
    assert forall|i: int, j: int| 0 <= i < j < rest.len() implies (#[trigger] rest[i]).id != (
    #[trigger] rest[j]).id by {
        assert(to(i) < to(j));
        assert(idle[to(i)].id != idle[to(j)].id);
    }
    lemma_numbered(free, id, free.len() as int);
    assert forall|i: int| 0 <= i < ff.len() implies (#[trigger] ff[i]).id != id by {
        assert(ff[i] == idle[to(i)]);
        if f >= 0 {
            assert(idle[f].id == id);
        }
    }
    assert forall|i: int| 0 <= i < rest.len() implies (#[trigger] rest[i]).id < next
        && !held.remove(id).contains_key(rest[i].id) by {
        assert(idle[to(i)].id < next);
    }
}

/// What [`arena_at`] finds is the last arena on the slab.
pub proof fn lemma_arena_at(arenas: Seq<BumpState>, id: u64, n: int)
    requires
        0 <= n <= arenas.len(),
    ensures
        -1 <= arena_at(arenas, id, n) < n,
        arena_at(arenas, id, n) >= 0 ==> arenas[arena_at(arenas, id, n)].buffer.slab.id == id,
        forall|i: int|
            arena_at(arenas, id, n) < i < n ==> (#[trigger] arenas[i]).buffer.slab.id != id,
    decreases n,
{
    if n > 0 {
        lemma_arena_at(arenas, id, n - 1);
    }
}

/// The arenas off a slab are others, in their order.
pub proof fn lemma_arenas_off(arenas: Seq<BumpState>, id: u64) -> (from: spec_fn(int) -> int)
    ensures
        ({
            let rest = arenas_off(arenas, id);
            &&& rest.len() <= arenas.len()
            &&& forall|i: int|
                0 <= i < rest.len() ==> 0 <= #[trigger] from(i) < arenas.len() && rest[i]
                    == arenas[from(i)] && rest[i].buffer.slab.id != id
            &&& forall|i: int, j: int|
                0 <= i < j < rest.len() ==> #[trigger] from(i) < #[trigger] from(j)
        }),
        (forall|i: int| 0 <= i < arenas.len() ==> (#[trigger] arenas[i]).buffer.slab.id != id)
            ==> arenas_off(arenas, id) == arenas,
    decreases arenas.len(),
{
    if arenas.len() == 0 {
        |i: int| i
    } else {
        let before = lemma_arenas_off(arenas.drop_last(), id);
        let rest = arenas_off(arenas.drop_last(), id);
        let from = |i: int|
            if i < rest.len() {
                before(i)
            } else {
                arenas.len() - 1
            };
        if forall|i: int| 0 <= i < arenas.len() ==> (#[trigger] arenas[i]).buffer.slab.id != id {
            assert forall|i: int| 0 <= i < arenas.drop_last().len() implies (
            #[trigger] arenas.drop_last()[i]).buffer.slab.id != id by {
                assert(arenas[i].buffer.slab.id != id);
            }
            assert(arenas_off(arenas, id) =~= arenas);
        }
        from
    }
}

/// Giving handles up keeps a slab that has another, where one of them at most is
/// of it.
pub proof fn lemma_let_go_spares(s: RuntimeState, all: Seq<Storage>, n: int, id: u64, at: int)
    requires
        0 <= n <= all.len(),
        s.held.contains_key(id),
        s.held[id].owners > 1,
        forall|i: int| 0 <= i < n && i != at ==> (#[trigger] all[i]).slab.id != id,
    ensures
        s.retired_to(all, n).held.contains_key(id),
        at >= n ==> s.retired_to(all, n).held[id] == s.held[id],
    decreases n,
{
    if n > 0 {
        lemma_let_go_spares(s, all, n - 1, id, at);
        reveal(RuntimeState::retired);
        if at < n - 1 {
            assert(all[n - 1].slab.id != id);
        }
    }
}

/// Fields that giving handles up leaves alone.
pub proof fn lemma_let_go_frame(s: RuntimeState, all: Seq<Storage>, n: int)
    ensures
        s.retired_to(all, n) == (RuntimeState {
            held: s.retired_to(all, n).held,
            pending: s.retired_to(all, n).pending,
            ..s
        }),
    decreases n,
{
    if n > 0 {
        lemma_let_go_frame(s, all, n - 1);
        lemma_handles_frame(s.retired_to(all, n - 1), all[n - 1]);
    }
}

/// The cache is within its cap, and every slab in one place.
pub open spec fn shelved(s: RuntimeState) -> bool {
    &&& s.pool.wf()
    &&& stored(s.pool.free, s.pending, s.held, s.serials.slab)
    &&& forall|i: int|
        0 <= i < s.pending.len() ==> is_bucket(#[trigger] s.pending[i].length as int)
}

proof fn lemma_drained_to(s: RuntimeState, n: int)
    requires
        shelved(s),
        0 <= n <= s.pending.len(),
    ensures
        s.drained_to(n).pool.wf(),
        s.drained_to(n).held == s.held,
        s.drained_to(n).serials == s.serials,
        stored(s.drained_to(n).pool.free, s.pending.skip(n), s.held, s.serials.slab),
    decreases n,
{
    if n == 0 {
        assert(s.pending.skip(0) =~= s.pending);
    } else {
        lemma_drained_to(s, n - 1);
        let t = s.drained_to(n - 1);
        let slab = s.pending[n - 1];
        let waiting = s.pending.skip(n - 1);
        assert(waiting[0] == slab);
        assert(waiting.drop_first() =~= s.pending.skip(n));
        lemma_drains(t.pool.free, waiting, s.held, s.serials.slab);
        crate::pool::law_pool_stays_within_cap(t.pool, slab, 0, 0);
    }
}

/// A waiting commit leaves every slab in one place.
pub proof fn lemma_committed_shelved(s: RuntimeState)
    requires
        shelved(s),
    ensures
        shelved(s.committed(true)),
{
    reveal(RuntimeState::committed);
    reveal(RuntimeState::drained);
    let t = match s.batch {
        None => s,
        Some(b) => if !b.cb_open {
            RuntimeState { batch: None, cursor: 0, ..s.caught_up() }
        } else {
            s.submitted(b, b.stamped_t0).settled(b.stamped_t0)
        },
    };
    assert(s.committed(true) == t.drained());
    assert(shelved(t));
    if t.pending.len() > 0 {
        let n = t.pending.len() as int;
        lemma_drained_to(t, n);
        assert(t.pending.skip(n) =~= Seq::<Slab>::empty());
    }
}

// ------------------------------------------------------------------ laws ---

/// Storage that is granted has no other handle: no handle named its slab before,
/// the new one is its only one, and the slab is not handed out again while it
/// lives.
pub proof fn law_granted_slabs_have_one_handle(s: RuntimeState, nbytes: usize, kind: BufferKind)
    requires
        shelved(s),
        s.allocated(nbytes, kind).1 is Ok,
    ensures
        ({
            let (t, r) = s.allocated(nbytes, kind);
            let id = r->Ok_0.slab.id;
            &&& !s.held.contains_key(id)
            &&& t.held == s.held.insert(
                id,
                Held { slab: r->Ok_0.slab, kind, owners: 1 },
            )
            &&& t.holds(r->Ok_0)
        }),
{
    reveal(RuntimeState::allocated);
    reveal(stored);
    let (pool, grant) = s.pool.granted(nbytes as int);
    crate::pool::law_grants_are_long_enough(s.pool, nbytes as int);
    match grant {
        Grant::Reuse(slab) => {
            lemma_reused(s, nbytes, slab);
        },
        Grant::Create(_) => {
            assert(!s.held.contains_key(s.serials.slab));
        },
    }
}

/// Storage that a handle names is never handed out: no request is granted it,
/// and it stays held through allocations, commits, and whatever is shared or
/// given up of other storage.
pub proof fn law_held_storage_stays(
    s: RuntimeState,
    id: u64,
    nbytes: usize,
    kind: BufferKind,
    wait: bool,
    other: Storage,
)
    requires
        s.wf(),
        s.held.contains_key(id),
        other.slab.id != id,
    ensures
        s.allocated(nbytes, kind).1 matches Ok(b) ==> b.slab.id != id,
        s.allocated(nbytes, kind).0.held.contains_key(id),
        s.allocated(nbytes, kind).0.held[id] == s.held[id],
        s.committed(wait).held == s.held,
        s.shared(other).held.contains_key(id) && s.shared(other).held[id] == s.held[id],
        s.retired(other).held.contains_key(id) && s.retired(other).held[id] == s.held[id],
{
    lemma_committed_frame(s, wait);
    reveal(RuntimeState::shared);
    reveal(RuntimeState::retired);
    if s.allocated(nbytes, kind).1 is Ok {
        law_granted_slabs_have_one_handle(s, nbytes, kind);
    } else {
        reveal(RuntimeState::allocated);
    }
}

/// A handle that is one of several leaves the storage held when it is given up,
/// and the last one retires it, once: giving up what is held no more, or held by
/// another runtime, changes nothing.
pub proof fn law_the_last_handle_retires(s: RuntimeState, b: Storage)
    requires
        s.wf(),
        !s.backs_arena(b.slab.id),
    ensures
        !s.holds(b) ==> s.retired(b) == s,
        s.holds(b) && s.held[b.slab.id].owners > 1 ==> s.retired(b).holds(b) && s.retired(
            b,
        ).pending == s.pending,
        s.holds(b) && s.held[b.slab.id].owners == 1 ==> {
            &&& !s.retired(b).holds(b)
            &&& s.held[b.slab.id].kind != BufferKind::Hot ==> s.retired(b).pending
                == s.pending.push(s.held[b.slab.id].slab)
            &&& s.retired(b).retired(b) == s.retired(b)
        },
        s.holds(b) && s.held[b.slab.id].owners < u64::MAX - 1 ==> s.shared(b).retired(b) == s,
{
    reveal(RuntimeState::shared);
    reveal(RuntimeState::retired);
    reveal(stored);
    if s.holds(b) {
        let h = s.held[b.slab.id];
        if h.owners < u64::MAX - 1 {
            assert(s.shared(b).retired(b).held =~= s.held);
        }
    }
}

/// Taking handles lets go of none, and adds one for each that is named.
pub proof fn lemma_taken_holds(s: RuntimeState, all: Seq<Storage>, n: int, b: Storage)
    requires
        0 <= n <= all.len(),
        s.holds(b),
    ensures
        s.taken(all, n).0.holds(b),
        s.taken(all, n).0.held[b.slab.id].owners >= s.held[b.slab.id].owners,
        (exists|i: int| 0 <= i < n && #[trigger] all[i] == b) ==> s.taken(
            all,
            n,
        ).0.held[b.slab.id].owners >= succ_event(s.held[b.slab.id].owners),
    decreases n,
{
    reveal(RuntimeState::shared);
    if n > 0 {
        lemma_taken_holds(s, all, n - 1, b);
    }
}

/// A tape holds what it binds: storage that was held when the tape took its
/// handles stays held when the handle that named it then is given up.
pub proof fn law_tapes_hold_their_storage(s: RuntimeState, all: Seq<Storage>, i: int)
    requires
        s.wf(),
        0 <= i < all.len(),
        s.holds(all[i]),
    ensures
        ({
            let t = s.taken(all, all.len() as int).0;
            &&& t.holds(all[i])
            &&& t.retired(all[i]).holds(all[i])
        }),
{
    lemma_taken_holds(s, all, all.len() as int, all[i]);
    assert(s.held[all[i].slab.id].owners > 0) by {
        reveal(stored);
    }
    reveal(RuntimeState::retired);
}

/// A refused creation is taken back: the runtime is as usable as before, no
/// handle counts for the slab and no place keeps it, so that no request is ever
/// granted it, and handles that are given up later change nothing.
pub proof fn law_refused_slabs_are_never_granted(
    s: RuntimeState,
    made: Slab,
    nbytes: usize,
    kind: BufferKind,
)
    requires
        s.wf(),
        made.id < s.serials.slab,
    ensures
        ({
            let t = s.undone(DeviceOp::CreateBuffer { made });
            &&& t.failed == s.failed
            &&& !t.held.contains_key(made.id)
            &&& t.allocated(nbytes, kind).1 matches Ok(b) ==> b.slab.id != made.id
            &&& forall|b: Storage| b.slab.id == made.id ==> #[trigger] t.retired(b) == t
        }),
{
    let t = s.undone(DeviceOp::CreateBuffer { made });
    lemma_struck(s.pool.free, s.pending, s.held, s.serials.slab, made.id);
    reveal(RuntimeState::allocated);
    reveal(RuntimeState::retired);
    let key = crate::pool::bucket(nbytes as int);
    crate::pool::lemma_newest(t.pool.free, key, t.pool.free.len() as int);
}

/// Every slab in one place, and every arena on one that is held.
spec fn kept(s: RuntimeState) -> bool {
    &&& shelved(s)
    &&& s.bump is None ==> s.replaced.len() == 0
    &&& s.bump is Some ==> s.arena_wf(s.bump->0)
    &&& forall|i: int| 0 <= i < s.replaced.len() ==> s.arena_wf(#[trigger] s.replaced[i])
}

proof fn lemma_none_forgotten(s: RuntimeState, id: u64)
    requires
        kept(s),
        s.serials.slab <= id,
    ensures
        forgotten(s.pool.free, id) == s.pool.free,
        forgotten(s.pending, id) == s.pending,
        arenas_off(s.replaced, id) == s.replaced,
        !s.held.contains_key(id),
{
    reveal(stored);
    let idle = s.pool.free + s.pending;
    let f = numbered(s.pool.free, id, s.pool.free.len() as int);
    let p = numbered(s.pending, id, s.pending.len() as int);
    lemma_numbered(s.pool.free, id, s.pool.free.len() as int);
    lemma_numbered(s.pending, id, s.pending.len() as int);
    if f >= 0 {
        assert(idle[f].id == id);
    }
    if p >= 0 {
        assert(idle[s.pool.free.len() + p].id == id);
    }
    lemma_arenas_off(s.replaced, id);
    assert forall|i: int| 0 <= i < s.replaced.len() implies (
    #[trigger] s.replaced[i]).buffer.slab.id != id by {
        assert(s.arena_wf(s.replaced[i]));
    }
}

proof fn lemma_regrown_frame(s: RuntimeState, g: RuntimeState, buffer: Storage, capacity: usize)
    ensures
        s.regrown(g, buffer, capacity).serials == g.serials,
        s.regrown(g, buffer, capacity).bump == Some(BumpState { buffer, cursor: 0, capacity }),
{
    let bump = Some(BumpState { buffer, cursor: 0, capacity });
    let e = RuntimeState { bump, replaced: Seq::empty(), ..g };
    let all = arena_buffers(g.outgoing());
    lemma_let_go_frame(e, all, all.len() as int);
}

/// The allocation that a new arena is made with, taken back again.
proof fn lemma_arena_taken_back(s: RuntimeState, capacity: usize)
    requires
        kept(s),
        s.allocated(capacity, BufferKind::Bump).1 is Ok,
        s.allocated(capacity, BufferKind::Bump).0.serials.slab != s.serials.slab,
    ensures
        ({
            let (g, r) = s.allocated(capacity, BufferKind::Bump);
            let made = r->Ok_0.slab;
            let t = s.regrown(g, r->Ok_0, capacity);
            let u = t.undone(DeviceOp::CreateBuffer { made });
            &&& t.ops.contains(DeviceOp::CreateBuffer { made })
            &&& t.bump->0.buffer.slab == made
            &&& as_before(s, u)
        }),
{
    let (g, r) = s.allocated(capacity, BufferKind::Bump);
    let made = r->Ok_0.slab;
    let t = s.regrown(g, r->Ok_0, capacity);
    reveal(RuntimeState::allocated);
    lemma_none_forgotten(s, made.id);
    assert(t.ops[s.ops.len() as int] == DeviceOp::CreateBuffer { made });
    assert(g.held.remove(made.id) =~= s.held);
    lemma_arenas_off(t.replaced, made.id);
    assert forall|i: int| 0 <= i < t.replaced.len() implies (
    #[trigger] t.replaced[i]).buffer.slab.id != made.id by {
        if i < s.replaced.len() {
            assert(s.arena_wf(s.replaced[i]));
        }
    }
    if s.bump is Some {
        assert(t.replaced.drop_last() =~= s.replaced);
    }
}

/// Storage, handles and arenas of `u` are those of `s`, and it has failed only if
/// `s` had.
pub open spec fn as_before(s: RuntimeState, u: RuntimeState) -> bool {
    &&& u.bump == s.bump
    &&& u.replaced == s.replaced
    &&& u.held == s.held
    &&& u.pending == s.pending
    &&& u.pool == s.pool
    &&& u.failed == s.failed
}

/// A bump arena whose growth the device refuses is there again: the same slab,
/// with its handle, its cursor and everything that was allocated in it. So is the
/// rest of the storage.
pub proof fn law_refused_growth_keeps_the_arena(s: RuntimeState, capacity: usize)
    requires
        s.wf(),
        s.bump_ensured(capacity).1 is None,
        s.bump_ensured(capacity).0.serials.slab != s.serials.slab,
    ensures
        ({
            let t = s.bump_ensured(capacity).0;
            let op = DeviceOp::CreateBuffer { made: t.bump->0.buffer.slab };
            &&& t.bump is Some
            &&& t.ops.contains(op)
            &&& as_before(s, t.undone(op))
        }),
{
    let cap = RuntimeState::bump_capacity(capacity) as usize;
    let (g, r) = s.allocated(cap, BufferKind::Bump);
    lemma_regrown_frame(s, g, r->Ok_0, cap);
    lemma_arena_taken_back(s, cap);
}

/// Nor is an arena lost where a reset needs another slab and the device refuses
/// it: the views in the old one are spared, and it goes on where it was.
pub proof fn law_refused_reset_keeps_the_arena(s: RuntimeState)
    requires
        s.wf(),
        s.can_clear_bump(),
        s.bump_cleared().serials.slab != s.serials.slab,
    ensures
        ({
            let t = s.bump_cleared();
            let op = DeviceOp::CreateBuffer { made: t.bump->0.buffer.slab };
            &&& t.bump is Some
            &&& t.ops.contains(op)
            &&& as_before(s.committed(true), t.undone(op))
            &&& t.undone(op).bump == s.bump
        }),
{
    lemma_committed_frame(s, true);
    lemma_committed_shelved(s);
    let c = s.committed(true);
    assert forall|i: int| 0 <= i < c.replaced.len() implies c.arena_wf(
        #[trigger] c.replaced[i],
    ) by {
        assert(s.arena_wf(s.replaced[i]));
    }
    let (g, r) = c.allocated(c.bump->0.capacity, BufferKind::Bump);
    lemma_regrown_frame(c, g, r->Ok_0, c.bump->0.capacity);
    lemma_arena_taken_back(c, c.bump->0.capacity);
}

/// Once the device has made the slab of a grown arena, the arena before it gives
/// up its handle: without views its slab is retired.
pub proof fn law_confirmed_growth_lets_the_old_arena_go(s: RuntimeState, capacity: usize)
    requires
        s.wf(),
        s.bump is Some,
        s.held[s.bump->0.buffer.slab.id].owners == 1,
        s.bump_ensured(capacity).1 is None,
        s.bump_ensured(capacity).0.serials.slab != s.serials.slab,
    ensures
        ({
            let t = s.bump_ensured(capacity).0;
            let u = t.confirmed(DeviceOp::CreateBuffer { made: t.bump->0.buffer.slab });
            &&& u.bump == t.bump
            &&& u.replaced.len() == 0
            &&& t.held.contains_key(s.bump->0.buffer.slab.id)
            &&& !u.held.contains_key(s.bump->0.buffer.slab.id)
        }),
{
    let t = s.bump_ensured(capacity).0;
    let cap = RuntimeState::bump_capacity(capacity) as usize;
    let old_id = s.bump->0.buffer.slab.id;
    law_granted_slabs_have_one_handle(s, cap, BufferKind::Bump);
    lemma_allocated_frame(s, cap, BufferKind::Bump);
    let (g, r) = s.allocated(cap, BufferKind::Bump);
    lemma_regrown_frame(s, g, r->Ok_0, cap);
    let n = t.replaced.len() as int;
    let made = t.bump->0.buffer.slab;
    assert(t.replaced.take(n) =~= t.replaced);
    assert(t.replaced.skip(n) =~= Seq::<BumpState>::empty());
    let all = arena_buffers(t.replaced);
    let v = RuntimeState { replaced: Seq::empty(), ..t };
    assert forall|i: int| 0 <= i < n - 1 implies (#[trigger] all[i]).slab.id != old_id by {
        reveal(arenas_apart);
        assert(t.replaced[i] == s.replaced[i]);
    }
    lemma_let_go_keeps_others(v, all, n - 1, old_id);
    lemma_let_go_frame(v, all, n - 1);
    lemma_let_go_frame(v, all, n);
    assert(all[n - 1] == s.bump->0.buffer);
    reveal(RuntimeState::retired);
}

proof fn lemma_let_go_keeps_others(s: RuntimeState, all: Seq<Storage>, n: int, id: u64)
    requires
        0 <= n <= all.len(),
        s.held.contains_key(id),
        forall|i: int| 0 <= i < n ==> (#[trigger] all[i]).slab.id != id,
    ensures
        s.retired_to(all, n).held.contains_key(id),
        s.retired_to(all, n).held[id] == s.held[id],
    decreases n,
{
    if n > 0 {
        lemma_let_go_keeps_others(s, all, n - 1, id);
        reveal(RuntimeState::retired);
    }
}

/// Resetting the bump arena spares the views that are still held: what is
/// allocated after the reset is on another slab than a view that was allocated
/// before it and not given up.
pub proof fn law_reset_spares_live_views(s: RuntimeState, nbytes: usize)
    requires
        s.wf(),
        s.bump is Some,
        s.bumped(nbytes).wf(),
        s.bumped(nbytes).can_clear_bump(),
    ensures
        ({
            let t = s.bumped(nbytes);
            let u = t.bump_cleared();
            &&& u.bump is Some
            &&& u.bump->0.buffer.slab.id != s.bump->0.buffer.slab.id
            &&& u.held.contains_key(s.bump->0.buffer.slab.id)
        }),
{
    let t = s.bumped(nbytes);
    let old_id = s.bump->0.buffer.slab.id;
    reveal(RuntimeState::shared);
    reveal(stored);
    assert(s.held.contains_key(old_id));
    assert(t.held[old_id].owners > 1);
    let c = t.committed(true);
    lemma_committed_frame(t, true);
    lemma_allocated_frame(c, c.bump->0.capacity, BufferKind::Bump);
    lemma_committed_shelved(t);
    law_granted_slabs_have_one_handle(c, c.bump->0.capacity, BufferKind::Bump);
    let all = c.outgoing();
    let n = c.replaced.len() as int;
    assert(arena_buffers(all)[n].slab.id == old_id);
    assert forall|i: int| 0 <= i < all.len() && i != n implies (
    #[trigger] arena_buffers(all)[i]).slab.id != old_id by {
        reveal(arenas_apart);
        assert(all[i] == c.replaced[i]);
    }
    let (g, r) = c.allocated(c.bump->0.capacity, BufferKind::Bump);
    let bump = Some(BumpState { buffer: r->Ok_0, cursor: 0, capacity: c.bump->0.capacity });
    let e = RuntimeState { bump, replaced: Seq::empty(), ..g };
    lemma_let_go_spares(e, arena_buffers(all), all.len() as int, old_id, n);
    lemma_let_go_frame(e, arena_buffers(all), all.len() as int);
}

} // verus!
