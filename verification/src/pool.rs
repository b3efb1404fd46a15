//! Freelist of device slabs. Requests are rounded up to a power of two of at
//! least 256 bytes; a returned slab waits, newest first, for a request of its
//! size, while the cached bytes stay within a cap.

use vstd::prelude::*;

use crate::sizes::{is_pow2, lemma_pow2_ceil, lemma_pow2_ceil_fixed, most, next_pow2_within, pow2_ceil};
use crate::tensor::Slab;
use crate::text::{decimal, first, owned, unless, Msg};

verus! {

/// Smallest slab.
pub const MIN_SLAB_BYTES: usize = 256;

/// Slab length that serves a request of `nbytes`.
pub open spec fn bucket(nbytes: int) -> int {
    most(pow2_ceil(nbytes), 256)
}

/// The length is one that requests are rounded to.
pub open spec fn is_bucket(length: int) -> bool {
    is_pow2(length) && length >= 256
}

/// Bytes held by the slabs.
pub open spec fn total_length(free: Seq<Slab>) -> int
    decreases free.len(),
{
    if free.len() == 0 {
        0
    } else {
        total_length(free.drop_last()) + free.last().length
    }
}

/// Index of the newest slab of length `key` among the first `n`, or -1.
pub open spec fn newest(free: Seq<Slab>, key: int, n: int) -> int
    decreases n,
{
    if n <= 0 || n > free.len() {
        -1
    } else if free[n - 1].length == key {
        n - 1
    } else {
        newest(free, key, n - 1)
    }
}

/// Index of the last slab numbered `id` among the first `n`, or -1.
pub open spec fn numbered(slabs: Seq<Slab>, id: u64, n: int) -> int
    decreases n,
{
    if n <= 0 || n > slabs.len() {
        -1
    } else if slabs[n - 1].id == id {
        n - 1
    } else {
        numbered(slabs, id, n - 1)
    }
}

/// What [`numbered`] finds is the last slab of that number.
pub proof fn lemma_numbered(slabs: Seq<Slab>, id: u64, n: int)
    requires
        0 <= n <= slabs.len(),
    ensures
        -1 <= numbered(slabs, id, n) < n,
        numbered(slabs, id, n) >= 0 ==> slabs[numbered(slabs, id, n)].id == id,
        forall|i: int| numbered(slabs, id, n) < i < n ==> (#[trigger] slabs[i]).id != id,
    decreases n,
{
    if n > 0 {
        lemma_numbered(slabs, id, n - 1);
    }
}

/// The slabs without the last one numbered `id`.
pub open spec fn forgotten(slabs: Seq<Slab>, id: u64) -> Seq<Slab> {
    let at = numbered(slabs, id, slabs.len() as int);
    if 0 <= at < slabs.len() {
        slabs.remove(at)
    } else {
        slabs
    }
}

/// Greatest length among the first `n` slabs, 0 for none.
pub open spec fn longest(free: Seq<Slab>, n: int) -> int
    decreases n,
{
    if n <= 0 || n > free.len() {
        0
    } else {
        most(longest(free, n - 1), free[n - 1].length as int)
    }
}

/// The freelist after trimming to `cap` bytes: while over the cap, the newest
/// slab of the longest length goes.
pub open spec fn trimmed(free: Seq<Slab>, cap: int) -> Seq<Slab>
    decreases free.len(),
{
    let at = newest(free, longest(free, free.len() as int), free.len() as int);
    if total_length(free) <= cap || at < 0 || at >= free.len() {
        free
    } else {
        trimmed(free.remove(at), cap)
    }
}

/// The slabs that trimming to `cap` bytes lets go, in that order.
pub open spec fn shed(free: Seq<Slab>, cap: int) -> Seq<Slab>
    decreases free.len(),
{
    let at = newest(free, longest(free, free.len() as int), free.len() as int);
    if total_length(free) <= cap || at < 0 || at >= free.len() {
        Seq::empty()
    } else {
        seq![free[at]] + shed(free.remove(at), cap)
    }
}

/// The freelist and its cap.
#[verifier::ext_equal]
pub struct PoolState {
    pub free: Seq<Slab>,
    pub cap: int,
}

/// Where a slab comes from.
#[derive(Clone, Copy, Debug, PartialEq, Eq, Structural)]
pub enum Grant {
    /// A cached slab serves the request.
    Reuse(Slab),
    /// The device has to make one of this length.
    Create(usize),
}

impl PoolState {
    /// What refuses a request on a device whose buffers reach `limit` bytes.
    pub open spec fn request_problem(nbytes: int, limit: int) -> Option<Seq<char>> {
        first(
            unless(
                nbytes <= isize::MAX && nbytes <= limit,
                "buffer request "@ + decimal(nbytes as nat)
                    + " exceeds host/device allocation limit"@,
            ),
            unless(bucket(nbytes) <= limit, "rounded buffer size exceeds device limit"@),
        )
    }

    /// Outcome of an admissible request.
    pub open spec fn granted(self, nbytes: int) -> (PoolState, Grant) {
        let at = newest(self.free, bucket(nbytes), self.free.len() as int);
        if 0 <= at < self.free.len() {
            (PoolState { free: self.free.remove(at), ..self }, Grant::Reuse(self.free[at]))
        } else {
            (self, Grant::Create(bucket(nbytes) as usize))
        }
    }

    /// The slab fits under the cap.
    pub open spec fn keeps(self, slab: Slab) -> bool {
        slab.length <= self.cap - total_length(self.free)
    }

    /// After `slab` came back: kept if it fits under the cap, dropped otherwise.
    pub open spec fn recycled(self, slab: Slab) -> PoolState {
        if self.keeps(slab) {
            PoolState { free: self.free.push(slab), ..self }
        } else {
            self
        }
    }

    /// After the cap was moved.
    pub open spec fn capped(self, cap: int) -> PoolState {
        PoolState { free: trimmed(self.free, cap), cap }
    }

    /// Every cached slab has a rounded length, and the cache fits its cap.
    pub open spec fn wf(self) -> bool {
        &&& 0 <= self.cap <= usize::MAX
        &&& total_length(self.free) <= self.cap
        &&& forall|i: int| 0 <= i < self.free.len() ==> is_bucket(#[trigger] self.free[i].length as int)
    }
}

/// The slab pool.
pub struct BufferPool {
    free: Vec<Slab>,
    cached_bytes: usize,
    max_cache_bytes: usize,
}

impl View for BufferPool {
    type V = PoolState;

    closed spec fn view(&self) -> PoolState {
        PoolState { free: self.free@, cap: self.max_cache_bytes as int }
    }
}

proof fn lemma_total_push(free: Seq<Slab>, s: Slab)
    ensures
        total_length(free.push(s)) == total_length(free) + s.length,
{
    assert(free.push(s).drop_last() == free);
}

proof fn lemma_total_nonneg(free: Seq<Slab>)
    ensures
        total_length(free) >= 0,
    decreases free.len(),
{
    if free.len() > 0 {
        lemma_total_nonneg(free.drop_last());
    }
}

proof fn lemma_total_remove(free: Seq<Slab>, at: int)
    requires
        0 <= at < free.len(),
    ensures
        total_length(free.remove(at)) == total_length(free) - free[at].length,
    decreases free.len(),
{
    if at == free.len() - 1 {
        assert(free.remove(at) == free.drop_last());
    } else {
        lemma_total_remove(free.drop_last(), at);
        assert(free.remove(at).drop_last() == free.drop_last().remove(at));
        assert(free.remove(at).last() == free.last());
    }
}

proof fn lemma_total_element(free: Seq<Slab>, at: int)
    requires
        0 <= at < free.len(),
    ensures
        free[at].length <= total_length(free),
{
    lemma_total_remove(free, at);
    lemma_total_nonneg(free.remove(at));
}

pub(crate) proof fn lemma_newest(free: Seq<Slab>, key: int, n: int)
    requires
        0 <= n <= free.len(),
    ensures
        -1 <= newest(free, key, n) < n,
        newest(free, key, n) >= 0 ==> free[newest(free, key, n)].length == key,
        forall|i: int| newest(free, key, n) < i < n ==> (#[trigger] free[i]).length != key,
    decreases n,
{
    if n > 0 && free[n - 1].length != key {
        lemma_newest(free, key, n - 1);
    }
}

proof fn lemma_longest(free: Seq<Slab>, n: int)
    requires
        0 <= n <= free.len(),
    ensures
        longest(free, n) >= 0,
        forall|i: int| 0 <= i < n ==> (#[trigger] free[i]).length <= longest(free, n),
        n > 0 ==> exists|i: int| 0 <= i < n && (#[trigger] free[i]).length == longest(free, n),
    decreases n,
{
    if n > 0 {
        lemma_longest(free, n - 1);
        if longest(free, n - 1) <= free[n - 1].length {
            assert(free[n - 1].length == longest(free, n));
        } else if n - 1 > 0 {
            let i = choose|i: int| 0 <= i < n - 1 && (#[trigger] free[i]).length == longest(free, n - 1);
            assert(free[i].length == longest(free, n));
        }
    }
}

/// A nonempty freelist has a newest slab of its longest length.
proof fn lemma_longest_present(free: Seq<Slab>)
    requires
        free.len() > 0,
    ensures
        0 <= newest(free, longest(free, free.len() as int), free.len() as int) < free.len(),
{
    let n = free.len() as int;
    lemma_longest(free, n);
    lemma_newest(free, longest(free, n), n);
}

/// Rounding never shrinks a request, and rounds to a bucket.
pub proof fn lemma_bucket(nbytes: int)
    requires
        nbytes >= 0,
    ensures
        bucket(nbytes) >= nbytes,
        is_bucket(bucket(nbytes)),
        bucket(nbytes) < 2 * nbytes || bucket(nbytes) == 256 || bucket(nbytes) == 1,
{
    lemma_pow2_ceil(nbytes);
    assert(is_pow2(256)) by {
        reveal_with_fuel(is_pow2, 10);
    }
}

/// A bucket length is served by itself.
pub proof fn lemma_bucket_fixed(length: int)
    requires
        is_bucket(length),
    ensures
        bucket(length) == length,
{
    lemma_pow2_ceil_fixed(length);
}

/// One past the index of the newest slab of length `key`, 0 for none.
fn find_newest(free: &Vec<Slab>, key: usize) -> (r: usize)
    ensures
        r == newest(free@, key as int, free@.len() as int) + 1,
        r <= free@.len(),
        r > 0 ==> free@[r - 1].length == key,
{
    let mut i: usize = free.len();
    while i > 0
        invariant
            i <= free@.len(),
            newest(free@, key as int, i as int) == newest(free@, key as int, free@.len() as int),
        decreases i,
    {
        if free[i - 1].length == key {
            return i;
        }
        i -= 1;
    }
    0
}

/// Takes the last slab numbered `id` out; returns it where there was one.
pub(crate) fn forget(slabs: &mut Vec<Slab>, id: u64) -> (r: Option<Slab>)
    ensures
        final(slabs)@ == forgotten(old(slabs)@, id),
        match r {
            Some(s) => {
                let at = numbered(old(slabs)@, id, old(slabs)@.len() as int);
                0 <= at < old(slabs)@.len() && s == old(slabs)@[at]
            },
            None => numbered(old(slabs)@, id, old(slabs)@.len() as int) < 0,
        },
{
    let mut i: usize = slabs.len();
    while i > 0
        invariant
            slabs@ == old(slabs)@,
            i <= slabs@.len(),
            numbered(slabs@, id, i as int) == numbered(slabs@, id, slabs@.len() as int),
        decreases i,
    {
        if slabs[i - 1].id == id {
            return Some(slabs.remove(i - 1));
        }
        i -= 1;
    }
    None
}

impl BufferPool {
    /// The bookkeeping agrees with the freelist.
    pub closed spec fn inv(&self) -> bool {
        &&& self@.wf()
        &&& self.cached_bytes == total_length(self.free@)
    }

    /// An empty pool with a cap.
    pub fn new(max_cache_bytes: usize) -> (p: BufferPool)
        ensures
            p.inv(),
            p@.wf(),
            p@ == (PoolState { free: Seq::empty(), cap: max_cache_bytes as int }),
    {
        let p = BufferPool { free: Vec::new(), cached_bytes: 0, max_cache_bytes };
        assert(p.free@ == Seq::<Slab>::empty());
        p
    }

    /// Bytes of the cached slabs.
    pub fn cached_bytes(&self) -> (r: usize)
        requires
            self.inv(),
        ensures
            r == total_length(self@.free),
    {
        self.cached_bytes
    }

    /// Serves a request of `nbytes` on a device whose buffers reach `limit`.
    pub fn request(&mut self, nbytes: usize, limit: usize) -> (r: Result<Grant, String>)
        requires
            old(self).inv(),
        ensures
            final(self).inv(),
            final(self)@.wf(),
            match PoolState::request_problem(nbytes as int, limit as int) {
                Some(m) => r is Err && r->Err_0@ == m && final(self)@ == old(self)@,
                None => r is Ok && (final(self)@, r->Ok_0) == old(self)@.granted(nbytes as int),
            },
    {
        if nbytes > isize::MAX as usize || nbytes > limit {
            return Err(
                Msg::new("buffer request ").num(nbytes).text(
                    " exceeds host/device allocation limit",
                ).done(),
            );
        }
        proof {
            lemma_bucket(nbytes as int);
        }
        let rounded: usize = match next_pow2_within(nbytes, limit) {
            Some(p) => p,
            None => {
                return Err(owned("rounded buffer size exceeds device limit"));
            },
        };
        let key: usize = if rounded >= MIN_SLAB_BYTES {
            rounded
        } else {
            MIN_SLAB_BYTES
        };
        if key > limit {
            return Err(owned("rounded buffer size exceeds device limit"));
        }
        let i: usize = find_newest(&self.free, key);
        if i == 0 {
            return Ok(Grant::Create(key));
        }
        let slab = self.free[i - 1];
        proof {
            lemma_total_remove(self.free@, i - 1);
            lemma_total_element(self.free@, i - 1);
        }
        self.free.remove(i - 1);
        self.cached_bytes = self.cached_bytes - key;
        Ok(Grant::Reuse(slab))
    }

    /// Takes a slab back. Returns `false` where it was not kept.
    pub fn recycle(&mut self, slab: Slab) -> (r: bool)
        requires
            old(self).inv(),
            is_bucket(slab.length as int),
        ensures
            final(self).inv(),
            final(self)@.wf(),
            final(self)@ == old(self)@.recycled(slab),
            r == old(self)@.keeps(slab),
    {
        if slab.length > self.max_cache_bytes - self.cached_bytes {
            return false;
        }
        proof {
            lemma_total_push(self.free@, slab);
        }
        self.cached_bytes = self.cached_bytes + slab.length;
        self.free.push(slab);
        true
    }

    /// Moves the cap and trims to it, longest slabs first. Returns the slabs that
    /// were let go.
    pub fn set_max_cache_bytes(&mut self, max_cache_bytes: usize) -> (r: Vec<Slab>)
        requires
            old(self).inv(),
        ensures
            final(self).inv(),
            final(self)@.wf(),
            final(self)@ == old(self)@.capped(max_cache_bytes as int),
            r@ == shed(old(self)@.free, max_cache_bytes as int),
    {
        self.max_cache_bytes = max_cache_bytes;
        let ghost goal = trimmed(self.free@, max_cache_bytes as int);
        let ghost all = shed(self.free@, max_cache_bytes as int);
        let mut gone: Vec<Slab> = Vec::new();
        assert(gone@ + all =~= all);
        while self.cached_bytes > self.max_cache_bytes
            invariant
                self.max_cache_bytes == max_cache_bytes,
                self.cached_bytes == total_length(self.free@),
                trimmed(self.free@, max_cache_bytes as int) == goal,
                gone@ + shed(self.free@, max_cache_bytes as int) == all,
                forall|i: int|
                    0 <= i < self.free@.len() ==> is_bucket(
                        #[trigger] self.free@[i].length as int,
                    ),
            decreases self.free@.len(),
        {
            proof {
                lemma_longest_present(self.free@);
            }
            let mut longest_len: usize = 0;
            let mut i: usize = 0;
            let n: usize = self.free.len();
            while i < n
                invariant
                    n == self.free@.len(),
                    i <= n,
                    longest_len == longest(self.free@, i as int),
                decreases n - i,
            {
                if self.free[i].length > longest_len {
                    longest_len = self.free[i].length;
                }
                i += 1;
            }
            let at: usize = find_newest(&self.free, longest_len);
            proof {
                lemma_total_remove(self.free@, at - 1);
                lemma_total_element(self.free@, at - 1);
                assert forall|i: int| 0 <= i < self.free@.len() - 1 implies is_bucket(
                    #[trigger] self.free@.remove(at - 1)[i].length as int,
                ) by {
                    if i < at - 1 {
                        assert(self.free@.remove(at - 1)[i] == self.free@[i]);
                    } else {
                        assert(self.free@.remove(at - 1)[i] == self.free@[i + 1]);
                    }
                }
            }
            let slab = self.free[at - 1];
            proof {
                let rest = shed(self.free@.remove(at - 1), max_cache_bytes as int);
                assert(gone@ + (seq![slab] + rest) =~= gone@.push(slab) + rest);
            }
            gone.push(slab);
            self.free.remove(at - 1);
            self.cached_bytes = self.cached_bytes - longest_len;
        }
        proof {
            assert(trimmed(self.free@, max_cache_bytes as int) == self.free@);
            assert(gone@ + Seq::<Slab>::empty() =~= gone@);
        }
        gone
    }

    /// Forgets the cached slab numbered `id`, if there is one.
    pub fn forget(&mut self, id: u64)
        requires
            old(self).inv(),
        ensures
            final(self).inv(),
            final(self)@.wf(),
            final(self)@ == (PoolState { free: forgotten(old(self)@.free, id), ..old(self)@ }),
    {
        let ghost free = self.free@;
        match self::forget(&mut self.free, id) {
            Some(s) => {
                proof {
                    let at = numbered(free, id, free.len() as int);
                    lemma_total_remove(free, at);
                    lemma_total_element(free, at);
                    assert forall|i: int| 0 <= i < free.len() - 1 implies is_bucket(
                        #[trigger] free.remove(at)[i].length as int,
                    ) by {
                        if i < at {
                            assert(free.remove(at)[i] == free[i]);
                        } else {
                            assert(free.remove(at)[i] == free[i + 1]);
                        }
                    }
                }
                self.cached_bytes = self.cached_bytes - s.length;
            },
            None => {},
        }
    }

    /// Forgets every cached slab; the cap stays.
    pub fn clear(&mut self)
        requires
            old(self).inv(),
        ensures
            final(self).inv(),
            final(self)@.wf(),
            final(self)@ == (PoolState { free: Seq::empty(), ..old(self)@ }),
    {
        self.free = Vec::new();
        self.cached_bytes = 0;
        assert(self.free@ == Seq::<Slab>::empty());
    }
}

/// The pool's invariant — cached bytes within the cap, every slab a bucket — is
/// kept by every operation on its state.
pub proof fn law_pool_stays_within_cap(p: PoolState, slab: Slab, nbytes: int, cap: int)
    requires
        p.wf(),
        is_bucket(slab.length as int),
        nbytes >= 0,
        0 <= cap <= usize::MAX,
    ensures
        p.recycled(slab).wf(),
        p.granted(nbytes).0.wf(),
        p.capped(cap).wf(),
        total_length(p.capped(cap).free) <= cap,
{
    lemma_total_push(p.free, slab);
    let at = newest(p.free, bucket(nbytes), p.free.len() as int);
    if 0 <= at < p.free.len() {
        lemma_total_remove(p.free, at);
        assert forall|i: int| 0 <= i < p.free.len() - 1 implies is_bucket(
            #[trigger] p.free.remove(at)[i].length as int,
        ) by {
            if i < at {
                assert(p.free.remove(at)[i] == p.free[i]);
            } else {
                assert(p.free.remove(at)[i] == p.free[i + 1]);
            }
        }
    }
    lemma_trim(p.free, cap);
}

proof fn lemma_trim(free: Seq<Slab>, cap: int)
    requires
        0 <= cap,
        forall|i: int| 0 <= i < free.len() ==> is_bucket(#[trigger] free[i].length as int),
    ensures
        total_length(trimmed(free, cap)) <= cap,
        forall|i: int|
            0 <= i < trimmed(free, cap).len() ==> is_bucket(
                #[trigger] trimmed(free, cap)[i].length as int,
            ),
    decreases free.len(),
{
    if total_length(free) > cap {
        assert(free.len() > 0);
        lemma_longest_present(free);
        let at = newest(free, longest(free, free.len() as int), free.len() as int);
        assert forall|i: int| 0 <= i < free.len() - 1 implies is_bucket(
            #[trigger] free.remove(at)[i].length as int,
        ) by {
            if i < at {
                assert(free.remove(at)[i] == free[i]);
            } else {
                assert(free.remove(at)[i] == free[i + 1]);
            }
        }
        lemma_trim(free.remove(at), cap);
    }
}

/// A slab that was just returned, and kept, is the one the next request of its
/// size gets.
pub proof fn law_recycled_slab_is_reused_first(p: PoolState, slab: Slab)
    requires
        p.wf(),
        is_bucket(slab.length as int),
        slab.length <= p.cap - total_length(p.free),
    ensures
        p.recycled(slab).granted(slab.length as int) == (p, Grant::Reuse(slab)),
{
    lemma_bucket_fixed(slab.length as int);
    let q = p.recycled(slab);
    assert(q.free.last() == slab);
    assert(q.free.remove(q.free.len() - 1) == p.free);
    assert(q.granted(slab.length as int).0 =~= p);
}

/// What a request is granted is always long enough for it.
pub proof fn law_grants_are_long_enough(p: PoolState, nbytes: int)
    requires
        p.wf(),
        0 <= nbytes,
        bucket(nbytes) <= usize::MAX,
    ensures
        match p.granted(nbytes).1 {
            Grant::Reuse(s) => s.length >= nbytes && is_bucket(s.length as int),
            Grant::Create(n) => n >= nbytes && is_bucket(n as int),
        },
{
    lemma_bucket(nbytes);
    lemma_newest(p.free, bucket(nbytes), p.free.len() as int);
}

} // verus!
