//! Integer arithmetic on extents: ceiling division, powers of two, and
//! overflow-checked products.

use vstd::prelude::*;

verus! {

/// How many pieces of `unit` cover `n`.
pub open spec fn ceil_div(n: int, unit: int) -> int {
    if n % unit == 0 {
        n / unit
    } else {
        n / unit + 1
    }
}

/// The pieces cover `n`, and one fewer would not.
pub proof fn lemma_ceil_div_covers(n: int, unit: int)
    requires
        n >= 0,
        unit > 0,
    ensures
        ceil_div(n, unit) * unit >= n,
        (ceil_div(n, unit) - 1) * unit < n || n == 0,
        0 <= ceil_div(n, unit) <= n,
        n > 0 ==> ceil_div(n, unit) > 0,
{
    let q = n / unit;
    let r = n % unit;
    assert(n == q * unit + r && 0 <= r < unit && 0 <= q <= n && (r != 0 ==> q < n || unit == 1)) by (nonlinear_arith)
        requires
            unit > 0,
            n >= 0,
            q == n / unit,
            r == n % unit,
    ;
    assert((q + 1) * unit == q * unit + unit) by (nonlinear_arith);
    assert((q - 1) * unit == q * unit - unit) by (nonlinear_arith);
}

/// Ceiling division.
pub fn div_ceil(n: usize, unit: usize) -> (r: usize)
    requires
        unit > 0,
    ensures
        r == ceil_div(n as int, unit as int),
        r <= n,
        n > 0 ==> r > 0,
{
    proof {
        lemma_ceil_div_covers(n as int, unit as int);
    }
    if n % unit == 0 {
        n / unit
    } else {
        n / unit + 1
    }
}

/// `p` is a power of two.
pub open spec fn is_pow2(p: int) -> bool
    decreases p,
{
    if p <= 0 {
        false
    } else {
        p == 1 || (p % 2 == 0 && is_pow2(p / 2))
    }
}

/// The smallest power of two that is at least `n`, searched upward from `p`.
pub open spec fn pow2_from(p: int, n: int) -> int
    decreases most(n - p, 0),
{
    if p <= 0 || p >= n {
        p
    } else {
        pow2_from(2 * p, n)
    }
}

/// The smallest power of two that is at least `n`.
pub open spec fn pow2_ceil(n: int) -> int {
    pow2_from(1, n)
}

/// Doubling keeps a power of two.
pub proof fn lemma_pow2_double(p: int)
    requires
        is_pow2(p),
    ensures
        is_pow2(2 * p),
{
    assert((2 * p) / 2 == p);
    assert((2 * p) % 2 == 0);
}

/// Powers of two are ordered by doubling: between `p` and `2 * p` there is none.
pub proof fn lemma_pow2_gap(p: int, q: int)
    requires
        is_pow2(p),
        is_pow2(q),
        p < q,
    ensures
        2 * p <= q,
    decreases p,
{
    assert(q % 2 == 0) by {
        if q == 1 {
        }
    }
    if p > 1 {
        lemma_pow2_gap(p / 2, q / 2);
    }
}

proof fn lemma_pow2_from(p: int, n: int)
    requires
        is_pow2(p),
        p == 1 || p < 2 * n,
    ensures
        is_pow2(pow2_from(p, n)),
        pow2_from(p, n) >= n,
        pow2_from(p, n) >= p,
        pow2_from(p, n) == 1 || pow2_from(p, n) < 2 * n,
        forall|q: int| is_pow2(q) && q >= n && q >= p ==> pow2_from(p, n) <= q,
    decreases most(n - p, 0),
{
    if p < n {
        lemma_pow2_double(p);
        lemma_pow2_from(2 * p, n);
        assert forall|q: int| is_pow2(q) && q >= n && q >= p implies pow2_from(p, n) <= q by {
            lemma_pow2_gap(p, q);
        }
    }
}

/// `pow2_ceil(n)` is the least power of two that is at least `n`.
pub proof fn lemma_pow2_ceil(n: int)
    ensures
        is_pow2(pow2_ceil(n)),
        pow2_ceil(n) >= n,
        pow2_ceil(n) == 1 || pow2_ceil(n) < 2 * n,
        forall|q: int| is_pow2(q) && q >= n ==> pow2_ceil(n) <= q,
{
    assert(is_pow2(1));
    lemma_pow2_from(1, n);
    assert forall|q: int| is_pow2(q) && q >= n implies pow2_ceil(n) <= q by {
        assert(q >= 1);
    }
}

/// A power of two is its own ceiling.
pub proof fn lemma_pow2_ceil_fixed(p: int)
    requires
        is_pow2(p),
    ensures
        pow2_ceil(p) == p,
{
    lemma_pow2_ceil(p);
}

/// The least power of two that is at least `n`, if `limit` admits it.
pub fn next_pow2_within(n: usize, limit: usize) -> (r: Option<usize>)
    ensures
        match r {
            Some(p) => p == pow2_ceil(n as int) && p <= limit,
            None => pow2_ceil(n as int) > limit,
        },
{
    if limit == 0 {
        proof {
            lemma_pow2_ceil(n as int);
        }
        return None;
    }
    let mut p: usize = 1;
    assert(is_pow2(1));
    while p < n
        invariant
            is_pow2(p as int),
            1 <= p <= limit,
            p == 1 || p < 2 * n,
            pow2_from(p as int, n as int) == pow2_ceil(n as int),
        decreases most(n - p, 0),
    {
        proof {
            lemma_pow2_double(p as int);
            lemma_pow2_from(p as int, n as int);
        }
        if p > limit / 2 {
            proof {
                lemma_pow2_from(2 * p as int, n as int);
            }
            return None;
        }
        p = p * 2;
    }
    Some(p)
}

/// The greatest power of two that is at most `n`, searched upward from `p`.
pub open spec fn pow2_below(p: int, n: int) -> int
    decreases n - p,
{
    if p <= 0 || 2 * p > n {
        p
    } else {
        pow2_below(2 * p, n)
    }
}

/// The greatest power of two that is at most `n`.
pub open spec fn pow2_floor(n: int) -> int {
    pow2_below(1, n)
}

proof fn lemma_pow2_below(p: int, n: int)
    requires
        is_pow2(p),
        p <= n,
    ensures
        is_pow2(pow2_below(p, n)),
        p <= pow2_below(p, n) <= n,
        n < 2 * pow2_below(p, n),
    decreases n - p,
{
    if 2 * p <= n {
        lemma_pow2_double(p);
        lemma_pow2_below(2 * p, n);
    }
}

/// `pow2_floor(n)` is a power of two, at most `n`, and more than half of it.
pub proof fn lemma_pow2_floor(n: int)
    requires
        n >= 1,
    ensures
        is_pow2(pow2_floor(n)),
        1 <= pow2_floor(n) <= n,
        n < 2 * pow2_floor(n),
{
    assert(is_pow2(1));
    lemma_pow2_below(1, n);
}

/// The greatest power of two that is at most `n`.
pub fn prev_pow2(n: usize) -> (r: usize)
    requires
        n >= 1,
    ensures
        r == pow2_floor(n as int),
        1 <= r <= n,
{
    let mut p: usize = 1;
    assert(is_pow2(1));
    while p <= n / 2
        invariant
            is_pow2(p as int),
            1 <= p <= n,
            pow2_below(p as int, n as int) == pow2_floor(n as int),
        decreases n - p,
    {
        proof {
            lemma_pow2_double(p as int);
        }
        p = p * 2;
    }
    p
}

/// Product of the first `k` extents.
pub open spec fn product_to(dims: Seq<int>, k: int) -> int
    decreases k,
{
    if k <= 0 {
        1
    } else {
        product_to(dims, k - 1) * dims[k - 1]
    }
}

/// Product of all extents.
pub open spec fn product(dims: Seq<int>) -> int {
    product_to(dims, dims.len() as int)
}

/// Every partial product, taken left to right, fits in a machine word.
pub open spec fn product_fits(dims: Seq<int>) -> bool {
    forall|k: int| 0 <= k <= dims.len() ==> #[trigger] product_to(dims, k) <= usize::MAX
}

/// The extents of a shape as mathematical integers.
pub open spec fn ints(dims: Seq<usize>) -> Seq<int> {
    Seq::new(dims.len(), |i: int| dims[i] as int)
}

/// The extents of a device shape as mathematical integers.
pub open spec fn ints32(dims: Seq<u32>) -> Seq<int> {
    Seq::new(dims.len(), |i: int| dims[i] as int)
}

/// A product of extents is not negative.
pub proof fn lemma_product_nonneg(dims: Seq<int>, k: int)
    requires
        0 <= k <= dims.len(),
        forall|i: int| 0 <= i < dims.len() ==> dims[i] >= 0,
    ensures
        product_to(dims, k) >= 0,
    decreases k,
{
    if k > 0 {
        lemma_product_nonneg(dims, k - 1);
        vstd::arithmetic::mul::lemma_mul_nonnegative(product_to(dims, k - 1), dims[k - 1]);
    }
}

/// Left-to-right product of the extents, `None` where a partial product
/// overflows.
pub fn checked_product(dims: &[usize]) -> (r: Option<usize>)
    ensures
        match r {
            Some(n) => product_fits(ints(dims@)) && n == product(ints(dims@)),
            None => !product_fits(ints(dims@)),
        },
{
    let mut n: usize = 1;
    let mut i: usize = 0;
    while i < dims.len()
        invariant
            i <= dims@.len(),
            n == product_to(ints(dims@), i as int),
            forall|k: int| 0 <= k <= i ==> #[trigger] product_to(ints(dims@), k) <= usize::MAX,
        decreases dims@.len() - i,
    {
        assert(product_to(ints(dims@), i + 1) == n * dims@[i as int]);
        match n.checked_mul(dims[i]) {
            Some(m) => {
                n = m;
            },
            None => {
                assert(!product_fits(ints(dims@))) by {
                    assert(product_to(ints(dims@), i + 1) > usize::MAX);
                }
                return None;
            },
        }
        i += 1;
    }
    Some(n)
}

/// [`checked_product`] for device `u32` extents, widened before every
/// multiplication.
pub fn checked_product_u32(dims: &[u32]) -> (r: Option<usize>)
    ensures
        match r {
            Some(n) => product_fits(ints32(dims@)) && n == product(ints32(dims@)),
            None => !product_fits(ints32(dims@)),
        },
{
    let mut n: usize = 1;
    let mut i: usize = 0;
    while i < dims.len()
        invariant
            i <= dims@.len(),
            n == product_to(ints32(dims@), i as int),
            forall|k: int| 0 <= k <= i ==> #[trigger] product_to(ints32(dims@), k) <= usize::MAX,
        decreases dims@.len() - i,
    {
        assert(product_to(ints32(dims@), i + 1) == n * dims@[i as int]);
        match n.checked_mul(dims[i] as usize) {
            Some(m) => {
                n = m;
            },
            None => {
                assert(!product_fits(ints32(dims@))) by {
                    assert(product_to(ints32(dims@), i + 1) > usize::MAX);
                }
                return None;
            },
        }
        i += 1;
    }
    Some(n)
}

/// The lesser of two integers.
pub open spec fn least(a: int, b: int) -> int {
    if a <= b {
        a
    } else {
        b
    }
}

/// The greater of two integers.
pub open spec fn most(a: int, b: int) -> int {
    if a >= b {
        a
    } else {
        b
    }
}

/// The lesser of two machine integers.
pub fn min_usize(a: usize, b: usize) -> (r: usize)
    ensures
        r == least(a as int, b as int),
{
    if a <= b {
        a
    } else {
        b
    }
}

/// The greater of two machine integers.
pub fn max_usize(a: usize, b: usize) -> (r: usize)
    ensures
        r == most(a as int, b as int),
{
    if a >= b {
        a
    } else {
        b
    }
}

} // verus!
