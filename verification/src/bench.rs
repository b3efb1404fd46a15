//! What the benchmark programs decide: the shapes they are asked for, the
//! operands they fill, the tile variants they launch, and whether a kernel
//! wrote everything it was timed for.

use vstd::prelude::*;

use crate::device::{mtl_size, size3, Pipeline};
use crate::dispatch::{tensor_bind, Bind, BinderState};
use crate::gemm::operand::{operand, Operand};
use crate::gemm::tiles::{bare, bare_bind, saturated, zero_pass};
use crate::nn::check::{finite, is_finite, word, word_at};
use crate::npy::header::{trim, trimmed};
use crate::runtime::GpuRuntime;
use crate::sizes::{div_ceil, least, max_usize, min_usize};
use crate::state::RuntimeState;
use crate::tensor::Tensor;
use crate::text::{count_of, decimal, parse_count, reports, Msg};

verus! {

// ----------------------------------------------------------------- shapes --

/// One product to time: `[m, k] @ [k, n]`.
#[derive(Debug)]
pub struct BenchShape {
    pub m: usize,
    pub n: usize,
    pub k: usize,
    /// How the shape is reported.
    pub label: String,
}

/// A shape as data.
pub struct ShapeView {
    pub m: usize,
    pub n: usize,
    pub k: usize,
    pub label: Seq<char>,
}

impl View for BenchShape {
    type V = ShapeView;

    open spec fn view(&self) -> ShapeView {
        ShapeView { m: self.m, n: self.n, k: self.k, label: self.label@ }
    }
}

/// The shapes of a list, as data.
pub open spec fn shape_views(shapes: Seq<BenchShape>) -> Seq<ShapeView> {
    shapes.map_values(|s: BenchShape| s@)
}

/// How three extents are written.
pub open spec fn shape_label(m: usize, n: usize, k: usize) -> Seq<char> {
    decimal(m as nat) + "x"@ + decimal(n as nat) + "x"@ + decimal(k as nat)
}

/// Where `c` next stands in `s`, from `i` on; the length where it does not.
pub open spec fn next_at(s: Seq<char>, c: char, i: int) -> int
    decreases s.len() - i,
{
    if i < 0 || i >= s.len() {
        s.len() as int
    } else if s[i] == c {
        i
    } else {
        next_at(s, c, i + 1)
    }
}

/// The next place is not before the position, and none is passed over.
pub proof fn lemma_next_at(s: Seq<char>, c: char, i: int)
    requires
        0 <= i <= s.len(),
    ensures
        i <= next_at(s, c, i) <= s.len(),
        next_at(s, c, i) < s.len() ==> s[next_at(s, c, i)] == c,
        forall|j: int| i <= j < next_at(s, c, i) ==> s[j] != c,
    decreases s.len() - i,
{
    if i < s.len() && s[i] != c {
        lemma_next_at(s, c, i + 1);
    }
}

fn next_of(s: &str, c: char, from: usize) -> (r: usize)
    requires
        from <= s@.len(),
    ensures
        r == next_at(s@, c, from as int),
        from <= r <= s@.len(),
{
    let total: usize = s.unicode_len();
    let mut i: usize = from;
    while i < total && s.get_char(i) != c
        invariant
            total == s@.len(),
            from <= i <= total,
            next_at(s@, c, from as int) == next_at(s@, c, i as int),
        decreases total - i,
    {
        i += 1;
    }
    i
}

/// The extents that `MxNxK` spells.
pub open spec fn extents_of(t: Seq<char>) -> Option<(usize, usize, usize)> {
    let a = next_at(t, 'x', 0);
    let b = next_at(t, 'x', a + 1);
    if a >= t.len() || b >= t.len() || next_at(t, 'x', b + 1) < t.len() {
        None
    } else {
        match (
            count_of(t.subrange(0, a)),
            count_of(t.subrange(a + 1, b)),
            count_of(t.subrange(b + 1, t.len() as int)),
        ) {
            (Some(m), Some(n), Some(k)) => Some((m as usize, n as usize, k as usize)),
            _ => None,
        }
    }
}

fn parse_extents(t: &str) -> (r: Option<(usize, usize, usize)>)
    ensures
        r == extents_of(t@),
{
    let total: usize = t.unicode_len();
    let a: usize = next_of(t, 'x', 0);
    if a >= total {
        return None;
    }
    let b: usize = next_of(t, 'x', a + 1);
    if b >= total {
        return None;
    }
    let end: usize = next_of(t, 'x', b + 1);
    if end < total {
        return None;
    }
    let m = parse_count(t.substring_char(0, a));
    let n = parse_count(t.substring_char(a + 1, b));
    let k = parse_count(t.substring_char(b + 1, total));
    match (m, n, k) {
        (Some(m), Some(n), Some(k)) => Some((m, n, k)),
        _ => None,
    }
}

/// Message of an entry that spells no shape.
pub open spec fn entry_problem(entry: Seq<char>) -> Seq<char> {
    "BENCH_SHAPES entry must be MxNxK, got "@ + entry
}

/// The shapes of a comma-separated list, from position `i` on. Blank entries
/// are passed over; the first entry that spells no shape refuses the list.
pub open spec fn shapes_in(s: Seq<char>, i: int) -> Result<Seq<ShapeView>, Seq<char>>
    decreases s.len() + 1 - i,
{
    if i < 0 || i > s.len() {
        Ok(Seq::empty())
    } else {
        let j = next_at(s, ',', i);
        proof {
            lemma_next_at(s, ',', i);
        }
        let entry = s.subrange(i, j);
        if trimmed(entry).len() == 0 {
            shapes_in(s, j + 1)
        } else {
            match extents_of(trimmed(entry)) {
                None => Err(entry_problem(entry)),
                Some((m, n, k)) => match shapes_in(s, j + 1) {
                    Err(e) => Err(e),
                    Ok(rest) => Ok(
                        seq![ShapeView { m, n, k, label: shape_label(m, n, k) }] + rest,
                    ),
                },
            }
        }
    }
}

/// The shapes that a list such as `512x512x512,4096x128x2048` asks for.
pub fn shapes_from_text(raw: &str) -> (r: Result<Vec<BenchShape>, String>)
    ensures
        match shapes_in(raw@, 0) {
            Ok(shapes) => r is Ok && shape_views(r->Ok_0@) == shapes,
            Err(m) => r is Err && r->Err_0@ == m,
        },
{
    let total: usize = raw.unicode_len();
    let mut shapes: Vec<BenchShape> = Vec::new();
    let mut i: usize = 0;
    let mut more = true;
    assert(shape_views(shapes@) =~= Seq::empty());
    proof {
        if shapes_in(raw@, 0) is Ok {
            assert(Seq::<ShapeView>::empty() + shapes_in(raw@, 0)->Ok_0 =~= shapes_in(
                raw@,
                0,
            )->Ok_0);
        }
    }
    while more
        invariant
            total == raw@.len(),
            more ==> i <= total,
            match if more {
                shapes_in(raw@, i as int)
            } else {
                Ok(Seq::empty())
            } {
                Ok(rest) => shapes_in(raw@, 0) == Ok::<Seq<ShapeView>, Seq<char>>(
                    shape_views(shapes@) + rest,
                ),
                Err(m) => shapes_in(raw@, 0) == Err::<Seq<ShapeView>, Seq<char>>(m),
            },
        decreases
                (if more {
                    total + 1 - i
                } else {
                    0
                }),
    {
        let j: usize = next_of(raw, ',', i);
        let entry = raw.substring_char(i, j);
        let spelled = trim(entry);
        let ghost before = shape_views(shapes@);
        if spelled.unicode_len() > 0 {
            match parse_extents(spelled) {
                None => {
                    return Err(
                        Msg::new("BENCH_SHAPES entry must be MxNxK, got ").text(entry).done(),
                    );
                },
                Some((m, n, k)) => {
                    let label = Msg::new("").num(m).text("x").num(n).text("x").num(k).done();
                    proof {
                        reveal_strlit("");
                        assert(label@ =~= shape_label(m, n, k));
                    }
                    let shape = BenchShape { m, n, k, label };
                    proof {
                        assert(shape_views(shapes@.push(shape)) =~= before.push(shape@));
                        if shapes_in(raw@, j + 1) is Ok {
                            let rest = shapes_in(raw@, j + 1)->Ok_0;
                            assert(before + (seq![shape@] + rest) =~= before.push(shape@) + rest);
                        }
                    }
                    shapes.push(shape);
                },
            }
        }
        if j < total {
            i = j + 1;
        } else {
            more = false;
            assert(shapes_in(raw@, j + 1) == Ok::<Seq<ShapeView>, Seq<char>>(Seq::empty()));
        }
    }
    proof {
        assert(shape_views(shapes@) + Seq::<ShapeView>::empty() =~= shape_views(shapes@));
    }
    Ok(shapes)
}

proof fn lemma_no_comma_or_x(n: nat, i: int)
    requires
        0 <= i < decimal(n).len(),
    ensures
        decimal(n)[i] != 'x',
        decimal(n)[i] != ',',
        decimal(n)[i] != '+',
        !crate::npy::header::white(decimal(n)[i]),
{
    crate::npy::laws::lemma_decimal(n);
    assert(crate::text::digit_value(decimal(n)[i]) is Some);
}

proof fn lemma_next_is(s: Seq<char>, c: char, i: int, j: int)
    requires
        0 <= i <= j <= s.len(),
        j < s.len() ==> s[j] == c,
        forall|p: int| i <= p < j ==> s[p] != c,
    ensures
        next_at(s, c, i) == j,
    decreases j - i,
{
    if i < j {
        lemma_next_is(s, c, i + 1, j);
    }
}

/// The label of a shape, given back as a list, asks for that shape.
pub proof fn law_labels_read_back(m: usize, n: usize, k: usize)
    ensures
        shapes_in(shape_label(m, n, k), 0) == Ok::<Seq<ShapeView>, Seq<char>>(
            seq![ShapeView { m, n, k, label: shape_label(m, n, k) }],
        ),
{
    let (x, y, z) = (decimal(m as nat), decimal(n as nat), decimal(k as nat));
    let s = shape_label(m, n, k);
    reveal_strlit("x");
    crate::npy::laws::lemma_decimal(m as nat);
    crate::npy::laws::lemma_decimal(n as nat);
    crate::npy::laws::lemma_decimal(k as nat);
    let a = x.len() as int;
    let b = a + 1 + y.len();
    let total = s.len() as int;
    assert(total == b + 1 + z.len());
    assert(s[a] == 'x' && s[b] == 'x');
    assert(s.subrange(0, a) =~= x);
    assert(s.subrange(a + 1, b) =~= y);
    assert(s.subrange(b + 1, total) =~= z);
    assert forall|i: int| 0 <= i < total && i != a && i != b implies {
        &&& #[trigger] s[i] != 'x'
        &&& s[i] != ','
        &&& !crate::npy::header::white(s[i])
    } by {
        if i < a {
            lemma_no_comma_or_x(m as nat, i);
            assert(s[i] == x[i]);
        } else if i < b {
            lemma_no_comma_or_x(n as nat, i - a - 1);
            assert(s[i] == y[i - a - 1]);
        } else {
            lemma_no_comma_or_x(k as nat, i - b - 1);
            assert(s[i] == z[i - b - 1]);
        }
    }
    assert forall|i: int| 0 <= i < total implies #[trigger] s[i] != ',' by {
        if i == a || i == b {
            assert(s[i] == 'x');
        }
    }
    lemma_next_is(s, ',', 0, total);
    assert(s.subrange(0, total) =~= s);
    assert(!crate::npy::header::white(s[0]));
    assert(s.last() == s[total - 1]);
    assert(!crate::npy::header::white(s.last()));
    crate::npy::laws::lemma_trim_solid(s);
    lemma_next_is(s, 'x', 0, a);
    lemma_next_is(s, 'x', a + 1, b);
    lemma_next_is(s, 'x', b + 1, total);
    lemma_no_comma_or_x(m as nat, 0);
    lemma_no_comma_or_x(n as nat, 0);
    lemma_no_comma_or_x(k as nat, 0);
    assert(extents_of(s) == Some((m, n, k)));
    reveal_with_fuel(shapes_in, 2);
    let one = ShapeView { m, n, k, label: s };
    assert(seq![one] + Seq::<ShapeView>::empty() =~= seq![one]);
}

// --------------------------------------------------------------- operands --

/// Multiplier of the generator.
pub const LCG_FACTOR: u64 = 6364136223846793005;

/// Increment of the generator.
pub const LCG_STEP: u64 = 1442695040888963407;

/// State of the generator after `i` steps from a seed.
pub open spec fn lcg_state(seed: u64, i: int) -> int
    decreases i,
{
    if i <= 0 {
        (seed * LCG_FACTOR + 1) % 0x1_0000_0000_0000_0000
    } else {
        (lcg_state(seed, i - 1) * LCG_FACTOR + LCG_STEP) % 0x1_0000_0000_0000_0000
    }
}

/// The `i`-th word drawn from a seed: the upper half of a state.
pub open spec fn lcg_word(seed: u64, i: int) -> int {
    lcg_state(seed, i + 1) / 0x1_0000_0000
}

fn advance(s: u64, step: u64) -> (r: u64)
    ensures
        r == (s * LCG_FACTOR + step) % 0x1_0000_0000_0000_0000,
{
    assert(0 <= s * LCG_FACTOR <= 0x1_0000_0000_0000_0000 * LCG_FACTOR) by (nonlinear_arith)
        requires
            0 <= s < 0x1_0000_0000_0000_0000,
            LCG_FACTOR >= 0,
    ;
    let wide: u128 = s as u128 * LCG_FACTOR as u128 + step as u128;
    let r: u128 = wide % 0x1_0000_0000_0000_0000;
    r as u64
}

/// The first `n` words drawn from a seed. Read as fractions of the greatest
/// word they spread over the unit interval.
pub fn fill(n: usize, seed: u64) -> (r: Vec<u32>)
    ensures
        r@.len() == n,
        forall|i: int| 0 <= i < n ==> #[trigger] r@[i] == lcg_word(seed, i),
{
    let mut r: Vec<u32> = Vec::new();
    let mut s: u64 = advance(seed, 1);
    let mut i: usize = 0;
    while i < n
        invariant
            i <= n,
            r@.len() == i,
            s == lcg_state(seed, i as int),
            forall|j: int| 0 <= j < i ==> #[trigger] r@[j] == lcg_word(seed, j),
        decreases n - i,
    {
        s = advance(s, LCG_STEP);
        r.push((s / 0x1_0000_0000) as u32);
        i += 1;
    }
    r
}

// --------------------------------------------------------------- variants --

/// A tile geometry under test.
#[derive(Clone, Copy, Debug)]
pub struct Variant {
    pub kernel: &'static str,
    /// Rows of a tile.
    pub sm: usize,
    /// Columns of a tile.
    pub sn: usize,
    /// Step over the contracted dimension.
    pub bk: usize,
    /// Simdgroups of a threadgroup.
    pub nsg: usize,
    /// The kernel adds to C from its first step on, so C is zeroed before it.
    pub needs_zero: bool,
    /// The kernel also takes the tiles down the rows.
    pub binds_tiles_m: bool,
}

impl Variant {
    /// No extent of the tile is zero.
    pub open spec fn sound(self) -> bool {
        self.sm > 0 && self.sn > 0 && self.bk > 0
    }

    /// Whole tiles make up the product.
    pub fn divides(&self, m: usize, n: usize, k: usize) -> (r: bool)
        requires
            self.sound(),
        ensures
            r == (m % self.sm == 0 && n % self.sn == 0 && k % self.bk == 0),
    {
        m % self.sm == 0 && n % self.sn == 0 && k % self.bk == 0
    }
}

/// Binds of a variant's multiplication.
pub open spec fn variant_binds(
    v: Variant,
    a: Operand,
    b: Operand,
    c: Operand,
    m: usize,
    n: usize,
    k: usize,
) -> Seq<Bind> {
    let head = seq![
        bare(a, 0),
        bare(b, 1),
        bare(c, 2),
        word_at(m as u32, 3),
        word_at(n as u32, 4),
        word_at(k as u32, 5),
        word_at((n / v.sn) as u32, 6),
    ];
    if v.binds_tiles_m {
        head.push(word_at((m / v.sm) as u32, 7))
    } else {
        head
    }
}

/// A variant as recorded by a binder: C zeroed and a barrier where it needs
/// that, then the multiplication, one threadgroup per tile.
pub open spec fn variant_fn(
    v: Variant,
    p: Pipeline,
    z: Option<Pipeline>,
    a: Operand,
    b: Operand,
    c: Operand,
    m: usize,
    n: usize,
    k: usize,
) -> spec_fn(BinderState) -> BinderState {
    |s: BinderState|
        {
            let cleared = match z {
                Some(z) => zero_pass(z, c).on(s).with_barrier(),
                None => s,
            };
            cleared.piped(p).bound_all(variant_binds(v, a, b, c, m, n, k)).dispatched(
                size3(((n / v.sn) * (m / v.sm)) as usize, 1, 1),
                size3(saturated(p.thread_execution_width * v.nsg), 1, 1),
            )
        }
}

/// Effect of [`run_variant`].
pub open spec fn run_variant_step(
    rt: RuntimeState,
    v: Variant,
    a: Operand,
    b: Operand,
    c: Operand,
    m: usize,
    n: usize,
    k: usize,
) -> (RuntimeState, Option<Seq<char>>) {
    let (s, r) = rt.piped(v.kernel@);
    match r {
        Err(e) => (s, Some(e)),
        Ok(p) => {
            let (t, q) = s.piped("zero_f32"@);
            match q {
                Err(e) => (t, Some(e)),
                Ok(z) => t.encoded(
                    None,
                    variant_fn(
                        v,
                        p,
                        if v.needs_zero {
                            Some(z)
                        } else {
                            None
                        },
                        a,
                        b,
                        c,
                        m,
                        n,
                        k,
                    ),
                ),
            }
        },
    }
}

/// Effect of [`dispatch_variant`].
pub open spec fn dispatch_variant_step(
    rt: RuntimeState,
    v: Variant,
    a: Operand,
    b: Operand,
    c: Operand,
    m: usize,
    n: usize,
    k: usize,
) -> (RuntimeState, Option<Seq<char>>) {
    let (s, r) = rt.piped(v.kernel@);
    match r {
        Err(e) => (s, Some(e)),
        Ok(p) => s.encoded(None, variant_fn(v, p, None, a, b, c, m, n, k)),
    }
}

fn variant_bind_list(v: &Variant, a: &Tensor, b: &Tensor, c: &Tensor, m: usize, n: usize, k: usize) -> (r:
    Vec<Bind>)
    requires
        v.sound(),
    ensures
        r@ == variant_binds(*v, operand(*a), operand(*b), operand(*c), m, n, k),
{
    let mut r: Vec<Bind> = Vec::new();
    r.push(bare_bind(a, 0));
    r.push(bare_bind(b, 1));
    r.push(bare_bind(c, 2));
    r.push(word(m as u32, 3));
    r.push(word(n as u32, 4));
    r.push(word(k as u32, 5));
    r.push(word((n / v.sn) as u32, 6));
    if v.binds_tiles_m {
        r.push(word((m / v.sm) as u32, 7));
    }
    assert(r@ =~= variant_binds(*v, operand(*a), operand(*b), operand(*c), m, n, k));
    r
}

fn encode_variant(
    rt: &mut GpuRuntime,
    v: &Variant,
    p: &Pipeline,
    z: Option<Pipeline>,
    a: &Tensor,
    b: &Tensor,
    c: &Tensor,
    m: usize,
    n: usize,
    k: usize,
) -> (r: Result<(), String>)
    requires
        old(rt).inv(),
        v.sound(),
        c.valid(),
        (n / v.sn) * (m / v.sm) <= usize::MAX,
    ensures
        final(rt).inv(),
        ({
            let (s, problem) = old(rt)@.encoded(
                None,
                variant_fn(*v, *p, z, operand(*a), operand(*b), operand(*c), m, n, k),
            );
            final(rt)@ == s && reports(r, problem)
        }),
{
    proof {
        crate::tensor::lemma_span(*c);
    }
    match rt.may_open_scope() {
        Err(e) => {
            return Err(e);
        },
        Ok(live) => {
            if !live {
                return Ok(());
            }
        },
    }
    let tiles: usize = (n / v.sn) * (m / v.sm);
    let count: usize = c.numel();
    let threads: usize = match p.thread_execution_width.checked_mul(v.nsg) {
        Some(t) => t,
        None => usize::MAX,
    };
    let mut bnd = rt.open_scope(None);
    match z {
        Some(z) => {
            let lanes: usize = max_usize(min_usize(z.thread_execution_width, count), 1);
            let z_binds = [tensor_bind(c, 0), word(count as u32, 1)];
            assert(z_binds@ =~= zero_pass(z, operand(*c)).binds);
            bnd.set_pipeline(&z);
            bnd.bind_all(&z_binds);
            bnd.dispatch(mtl_size(div_ceil(count, lanes), 1, 1), mtl_size(lanes, 1, 1));
            bnd.barrier();
        },
        None => {},
    }
    bnd.set_pipeline(p);
    let binds = variant_bind_list(v, a, b, c, m, n, k);
    bnd.bind_all(binds.as_slice());
    bnd.dispatch(mtl_size(tiles, 1, 1), mtl_size(threads, 1, 1));
    rt.close_scope(bnd, Ok(()))
}

/// Runs one variant of `C = A @ B` on its raw kernel, zeroing C first where the
/// kernel needs that. The operands are not checked.
pub fn run_variant(
    rt: &mut GpuRuntime,
    v: &Variant,
    a: &Tensor,
    b: &Tensor,
    c: &Tensor,
    m: usize,
    n: usize,
    k: usize,
) -> (r: Result<(), String>)
    requires
        old(rt).inv(),
        v.sound(),
        c.valid(),
        (n / v.sn) * (m / v.sm) <= usize::MAX,
    ensures
        final(rt).inv(),
        ({
            let (s, problem) = run_variant_step(
                old(rt)@,
                *v,
                operand(*a),
                operand(*b),
                operand(*c),
                m,
                n,
                k,
            );
            final(rt)@ == s && reports(r, problem)
        }),
{
    let p = rt.pipeline(v.kernel)?;
    let z = rt.pipeline("zero_f32")?;
    let first: Option<Pipeline> = if v.needs_zero {
        Some(z)
    } else {
        None
    };
    encode_variant(rt, v, &p, first, a, b, c, m, n, k)
}

/// Runs one variant on its raw kernel as it stands. The operands are not
/// checked.
pub fn dispatch_variant(
    rt: &mut GpuRuntime,
    v: &Variant,
    a: &Tensor,
    b: &Tensor,
    c: &Tensor,
    m: usize,
    n: usize,
    k: usize,
) -> (r: Result<(), String>)
    requires
        old(rt).inv(),
        v.sound(),
        c.valid(),
        (n / v.sn) * (m / v.sm) <= usize::MAX,
    ensures
        final(rt).inv(),
        ({
            let (s, problem) = dispatch_variant_step(
                old(rt)@,
                *v,
                operand(*a),
                operand(*b),
                operand(*c),
                m,
                n,
                k,
            );
            final(rt)@ == s && reports(r, problem)
        }),
{
    let p = rt.pipeline(v.kernel)?;
    encode_variant(rt, v, &p, None, a, b, c, m, n, k)
}

/// Whole tiles cover a product that they divide, each element once.
pub proof fn law_variants_cover(v: Variant, m: usize, n: usize, row: int, col: int)
    requires
        v.sound(),
        m % v.sm == 0,
        n % v.sn == 0,
        0 <= row < m,
        0 <= col < n,
    ensures
        0 <= row / v.sm as int,
        (row / v.sm as int) < m / v.sm,
        0 <= col / v.sn as int,
        (col / v.sn as int) < n / v.sn,
        (m / v.sm) * v.sm == m,
        (n / v.sn) * v.sn == n,
{
    lemma_whole(m as int, v.sm as int, row);
    lemma_whole(n as int, v.sn as int, col);
}

proof fn lemma_whole(n: int, unit: int, i: int)
    requires
        unit > 0,
        n % unit == 0,
        0 <= i < n,
    ensures
        0 <= i / unit < n / unit,
        (n / unit) * unit == n,
{
    vstd::arithmetic::div_mod::lemma_fundamental_div_mod(n, unit);
    vstd::arithmetic::div_mod::lemma_fundamental_div_mod(i, unit);
    let (q, r) = (n / unit, i / unit);
    assert(q * unit == n && 0 <= r < q) by (nonlinear_arith)
        requires
            unit > 0,
            n == unit * q + 0,
            i == unit * r + i % unit,
            0 <= i % unit < unit,
            0 <= i < n,
    ;
}

// --------------------------------------------------------------- coverage --

/// What became of an output that was filled with a sentinel beforehand.
#[derive(Clone, Copy, Debug, PartialEq, Eq, Structural)]
pub enum Coverage {
    /// Some element is infinite or no number.
    NonFinite,
    /// So many elements still hold the sentinel.
    Unwritten { count: usize, first: usize },
    /// Every element was written.
    Complete,
}

/// How many of the first `n` elements hold the sentinel.
pub open spec fn holding(bits: Seq<u32>, sentinel: u32, n: int) -> int
    decreases n,
{
    if n <= 0 {
        0
    } else {
        holding(bits, sentinel, n - 1) + if bits[n - 1] == sentinel {
            1int
        } else {
            0
        }
    }
}

/// Elements that were to be written.
pub open spec fn live(bits: Seq<u32>, elems: usize) -> int {
    least(elems as int, bits.len() as int)
}

/// Looks over the first `elems` floats of an output, given as bit patterns,
/// that held the sentinel before the kernel ran.
pub fn coverage(bits: &[u32], elems: usize, sentinel: u32) -> (r: Coverage)
    ensures
        match r {
            Coverage::NonFinite => exists|i: int|
                0 <= i < live(bits@, elems) && !finite(#[trigger] bits@[i]),
            Coverage::Unwritten { count, first } => {
                &&& forall|i: int| 0 <= i < live(bits@, elems) ==> finite(#[trigger] bits@[i])
                &&& count == holding(bits@, sentinel, live(bits@, elems))
                &&& count > 0
                &&& first < live(bits@, elems)
                &&& bits@[first as int] == sentinel
                &&& forall|i: int| 0 <= i < first ==> #[trigger] bits@[i] != sentinel
            },
            Coverage::Complete => forall|i: int|
                0 <= i < live(bits@, elems) ==> finite(#[trigger] bits@[i]) && bits@[i]
                    != sentinel,
        },
{
    let n: usize = min_usize(elems, bits.len());
    let mut count: usize = 0;
    let mut first: usize = 0;
    let mut i: usize = 0;
    while i < n
        invariant
            i <= n,
            n == live(bits@, elems),
            n <= bits@.len(),
            count == holding(bits@, sentinel, i as int),
            count <= i,
            forall|j: int| 0 <= j < i ==> finite(#[trigger] bits@[j]),
            count == 0 ==> forall|j: int| 0 <= j < i ==> #[trigger] bits@[j] != sentinel,
            count > 0 ==> first < i && bits@[first as int] == sentinel,
            count > 0 ==> forall|j: int| 0 <= j < first ==> #[trigger] bits@[j] != sentinel,
        decreases n - i,
    {
        if !is_finite(bits[i]) {
            assert(!finite(bits@[i as int]));
            return Coverage::NonFinite;
        }
        if bits[i] == sentinel {
            if count == 0 {
                first = i;
            }
            count += 1;
        }
        i += 1;
    }
    if count > 0 {
        Coverage::Unwritten { count, first }
    } else {
        Coverage::Complete
    }
}

} // verus!
