//! Host-side checks shared by the kernel entry points, and the shape every
//! entry point has: checks that touch nothing, then one kernel launch.

use vstd::prelude::*;

use crate::device::Pipeline;
use crate::dispatch::Bind;
use crate::sizes::{
    checked_product_u32, ints32, least, max_usize, min_usize, most, next_pow2_within, pow2_ceil,
    pow2_floor, prev_pow2, product, product_fits,
};
use crate::state::RuntimeState;
use crate::tensor::{GpuBuffer, Storage};
use crate::text::{decimal, first, reports, unless, Msg};

verus! {

/// Bytes of an `f32`, an `i32` or a `u32`.
pub const WORD: usize = 4;

/// Bytes of a bf16 or an f16.
pub const HALF: usize = 2;

/// Bytes of an `i8` or a packed pair of nibbles.
pub const BYTE: usize = 1;

/// The call had the effect and the outcome of `step`.
pub open spec fn encodes(
    before: RuntimeState,
    after: RuntimeState,
    r: Result<(), String>,
    step: (RuntimeState, Option<Seq<char>>),
) -> bool {
    after == step.0 && reports(r, step.1)
}

impl RuntimeState {
    /// Checks first: a problem is reported with nothing done, an idle call does
    /// nothing, a late problem is reported with nothing done; only then `go`.
    pub open spec fn guarded(
        self,
        problem: Option<Seq<char>>,
        idle: bool,
        late: Option<Seq<char>>,
        go: (RuntimeState, Option<Seq<char>>),
    ) -> (RuntimeState, Option<Seq<char>>) {
        if problem is Some {
            (self, problem)
        } else if idle {
            (self, None)
        } else if late is Some {
            (self, late)
        } else {
            go
        }
    }

    /// One-dimensional launch of the kernel `name` over `n` threads.
    pub open spec fn kernel_1d(self, name: Seq<char>, n: usize, binds: Seq<Bind>) -> (
        RuntimeState,
        Option<Seq<char>>,
    ) {
        let (s, r) = self.piped(name);
        match r {
            Err(m) => (s, Some(m)),
            Ok(p) => s.launched_1d(p, n, binds),
        }
    }

    /// Launch of the kernel `name` with `groups` x `rows` threadgroups of as many
    /// lanes as `threads` gives its pipeline.
    pub open spec fn kernel_groups(
        self,
        name: Seq<char>,
        binds: Seq<Bind>,
        tg_mem: Option<(usize, usize)>,
        groups: usize,
        rows: usize,
        threads: spec_fn(Pipeline) -> usize,
    ) -> (RuntimeState, Option<Seq<char>>) {
        let (s, r) = self.piped(name);
        match r {
            Err(m) => (s, Some(m)),
            Ok(p) => s.launched_groups(p, binds, tg_mem, groups, rows, threads(p)),
        }
    }
}

/// A refused or idle call leaves the runtime exactly as it was: no operation is
/// asked of the device and no counter moves.
pub proof fn law_checks_precede_encoding(
    s: RuntimeState,
    problem: Option<Seq<char>>,
    idle: bool,
    late: Option<Seq<char>>,
    go: (RuntimeState, Option<Seq<char>>),
)
    requires
        problem is Some || idle || late is Some,
    ensures
        s.guarded(problem, idle, late, go).0 == s,
{
}

// ----------------------------------------------------------- extents -------

/// Message of an element count that overflows.
pub open spec fn overflow_message(what: Seq<char>) -> Seq<char> {
    what + ": dimension product overflows usize"@
}

/// Two extents as a shape.
pub open spec fn pair(rows: u32, dim: u32) -> Seq<int> {
    ints32(seq![rows, dim])
}

/// What is wrong with a product of extents.
pub open spec fn elems_problem(dims: Seq<int>, what: Seq<char>) -> Option<Seq<char>> {
    unless(product_fits(dims), overflow_message(what))
}

/// Product of device extents, or an error naming the overflow.
pub fn elems_product(dims: &[u32], what: &str) -> (r: Result<usize, String>)
    ensures
        reports(r, elems_problem(ints32(dims@), what@)),
        r matches Ok(n) ==> n == product(ints32(dims@)),
{
    match checked_product_u32(dims) {
        Some(n) => Ok(n),
        None => Err(Msg::new(what).text(": dimension product overflows usize").done()),
    }
}

/// A product of two extents is the extents' product.
pub proof fn lemma_pair(rows: u32, dim: u32)
    ensures
        product(pair(rows, dim)) == rows * dim,
        product_fits(pair(rows, dim)) <==> rows * dim <= usize::MAX,
{
    let d = pair(rows, dim);
    assert(d =~= seq![rows as int, dim as int]);
    assert(crate::sizes::product_to(d, 0) == 1);
    assert(crate::sizes::product_to(d, 1) == rows);
    assert(crate::sizes::product_to(d, 2) == rows * dim);
    assert(crate::sizes::product_to(d, 2) == product(d));
    if rows * dim <= usize::MAX {
        assert forall|k: int| 0 <= k <= d.len() implies #[trigger] crate::sizes::product_to(d, k)
            <= usize::MAX by {
            assert(k == 0 || k == 1 || k == 2);
        }
    }
}

/// `rows * dim`, or an error naming the overflow.
pub fn elems(rows: u32, dim: u32, what: &str) -> (r: Result<usize, String>)
    ensures
        reports(r, unless(rows * dim <= usize::MAX, overflow_message(what@))),
        r matches Ok(n) ==> n == rows * dim,
{
    let dims: [u32; 2] = [rows, dim];
    proof {
        lemma_pair(rows, dim);
        assert(dims@ =~= seq![rows, dim]);
    }
    elems_product(&dims, what)
}

/// Message of an extent past a word's range.
pub open spec fn indexing_problem(n: int, what: Seq<char>) -> Option<Seq<char>> {
    unless(
        n <= u32::MAX,
        what + ": 1D extent "@ + decimal(n as nat) + " exceeds Metal uint indexing"@,
    )
}

/// Refuses an extent that a kernel's word-sized thread index cannot reach.
pub fn require_1d_indexable(n: usize, what: &str) -> (r: Result<(), String>)
    ensures
        reports(r, indexing_problem(n as int, what@)),
{
    if n > u32::MAX as usize {
        return Err(
            Msg::new(what).text(": 1D extent ").num(n).text(" exceeds Metal uint indexing").done(),
        );
    }
    Ok(())
}

// ------------------------------------------------------------ buffers ------

/// What an optional handle names.
pub open spec fn storage_of(buf: Option<&GpuBuffer>) -> Option<Storage> {
    match buf {
        Some(b) => Some(b@),
        None => None,
    }
}

/// What an optional handle names.
pub fn at_opt(buf: Option<&GpuBuffer>) -> (r: Option<Storage>)
    ensures
        r == storage_of(buf),
{
    match buf {
        Some(b) => Some(b.at()),
        None => None,
    }
}

/// Elements of `size` bytes a buffer can hold.
pub open spec fn capacity(buf: Storage, size: int) -> int {
    buf.nbytes as int / size
}

/// Elements of `size` bytes a buffer can hold.
pub fn capacity_of(buf: &Storage, size: usize) -> (r: usize)
    requires
        size > 0,
    ensures
        r == capacity(*buf, size as int),
{
    buf.nbytes / size
}

/// Where a buffer belongs to another runtime.
pub open spec fn runtime_problem(rt: u64, buf: Storage, what: Seq<char>) -> Option<Seq<char>> {
    unless(buf.runtime == rt, what + ": buffer belongs to another runtime"@)
}

/// Where a buffer holds fewer than `need` elements of `size` bytes.
pub open spec fn capacity_problem(buf: Storage, need: int, size: int, what: Seq<char>) -> Option<
    Seq<char>,
> {
    unless(
        capacity(buf, size) >= need,
        what + ": buffer holds "@ + decimal(capacity(buf, size) as nat)
            + " elements, kernel reads/writes "@ + decimal(need as nat),
    )
}

/// Where a buffer is another runtime's or too small.
pub open spec fn require_problem(rt: u64, buf: Storage, need: int, size: int, what: Seq<char>) -> Option<
    Seq<char>,
> {
    first(runtime_problem(rt, buf, what), capacity_problem(buf, need, size, what))
}

/// Refuses another runtime's buffer.
pub fn require_runtime(rt: u64, buf: &Storage, what: &str) -> (r: Result<(), String>)
    ensures
        reports(r, runtime_problem(rt, *buf, what@)),
{
    if buf.runtime != rt {
        return Err(Msg::new(what).text(": buffer belongs to another runtime").done());
    }
    Ok(())
}

/// Refuses a buffer of fewer than `need` elements of `size` bytes.
pub fn require_capacity(buf: &Storage, need: usize, size: usize, what: &str) -> (r: Result<
    (),
    String,
>)
    requires
        size > 0,
    ensures
        reports(r, capacity_problem(*buf, need as int, size as int, what@)),
{
    let have: usize = capacity_of(buf, size);
    if have < need {
        return Err(
            Msg::new(what).text(": buffer holds ").num(have).text(
                " elements, kernel reads/writes ",
            ).num(need).done(),
        );
    }
    Ok(())
}

/// Refuses a buffer that is another runtime's or too small.
pub fn require(rt: u64, buf: &Storage, need: usize, size: usize, what: &str) -> (r: Result<
    (),
    String,
>)
    requires
        size > 0,
    ensures
        reports(r, require_problem(rt, *buf, need as int, size as int, what@)),
{
    require_runtime(rt, buf, what)?;
    require_capacity(buf, need, size, what)
}

// ----------------------------------------------------------- aliasing ------

/// Both buffers name the same storage.
pub open spec fn same_storage(a: Storage, b: Storage) -> bool {
    a.slab.id == b.slab.id
}

/// The first written buffer after `i` that shares storage with the `i`-th.
pub open spec fn write_clash(
    entry: Seq<char>,
    writes: Seq<(&str, &Storage)>,
    i: int,
    j: int,
) -> Option<Seq<char>>
    decreases writes.len() - j,
{
    if j >= writes.len() || j < 0 {
        None
    } else if same_storage(*writes[i].1, *writes[j].1) {
        Some(
            entry + ": writable buffers "@ + writes[i].0@ + " and "@ + writes[j].0@ + " overlap"@,
        )
    } else {
        write_clash(entry, writes, i, j + 1)
    }
}

/// The first read buffer from `j` on that shares storage with the `i`-th written
/// one.
pub open spec fn read_clash(
    entry: Seq<char>,
    writes: Seq<(&str, &Storage)>,
    reads: Seq<(&str, &Storage)>,
    i: int,
    j: int,
) -> Option<Seq<char>>
    decreases reads.len() - j,
{
    if j >= reads.len() || j < 0 {
        None
    } else if same_storage(*writes[i].1, *reads[j].1) {
        Some(
            entry + ": writable buffer "@ + writes[i].0@ + " overlaps read-only buffer "@
                + reads[j].0@,
        )
    } else {
        read_clash(entry, writes, reads, i, j + 1)
    }
}

/// The first clash of a written buffer from `i` on.
pub open spec fn clash_from(
    entry: Seq<char>,
    writes: Seq<(&str, &Storage)>,
    reads: Seq<(&str, &Storage)>,
    i: int,
) -> Option<Seq<char>>
    decreases writes.len() - i,
{
    if i >= writes.len() || i < 0 {
        None
    } else {
        first(
            write_clash(entry, writes, i, i + 1),
            first(
                read_clash(entry, writes, reads, i, 0),
                clash_from(entry, writes, reads, i + 1),
            ),
        )
    }
}

/// The first clash of a written buffer with another one.
pub open spec fn disjoint_problem(
    entry: Seq<char>,
    writes: Seq<(&str, &Storage)>,
    reads: Seq<(&str, &Storage)>,
) -> Option<Seq<char>> {
    clash_from(entry, writes, reads, 0)
}

/// Refuses written buffers that share storage with each other or with a
/// read-only one.
pub fn require_disjoint_writes(
    entry: &str,
    writes: &[(&str, &Storage)],
    reads: &[(&str, &Storage)],
) -> (r: Result<(), String>)
    ensures
        reports(r, disjoint_problem(entry@, writes@, reads@)),
{
    let mut i: usize = 0;
    while i < writes.len()
        invariant
            i <= writes@.len(),
            disjoint_problem(entry@, writes@, reads@) == clash_from(
                entry@,
                writes@,
                reads@,
                i as int,
            ),
        decreases writes@.len() - i,
    {
        let (lhs_name, lhs) = writes[i];
        let mut j: usize = i + 1;
        while j < writes.len()
            invariant
                i < writes@.len(),
                i < j <= writes@.len(),
                lhs_name == writes@[i as int].0,
                lhs == writes@[i as int].1,
                write_clash(entry@, writes@, i as int, i + 1) == write_clash(
                    entry@,
                    writes@,
                    i as int,
                    j as int,
                ),
                disjoint_problem(entry@, writes@, reads@) == clash_from(
                    entry@,
                    writes@,
                    reads@,
                    i as int,
                ),
            decreases writes@.len() - j,
        {
            let (rhs_name, rhs) = writes[j];
            if lhs.aliases(rhs) {
                return Err(
                    Msg::new(entry).text(": writable buffers ").text(lhs_name).text(" and ").text(
                        rhs_name,
                    ).text(" overlap").done(),
                );
            }
            j += 1;
        }
        let mut k: usize = 0;
        while k < reads.len()
            invariant
                i < writes@.len(),
                k <= reads@.len(),
                lhs_name == writes@[i as int].0,
                lhs == writes@[i as int].1,
                write_clash(entry@, writes@, i as int, i + 1) is None,
                read_clash(entry@, writes@, reads@, i as int, 0) == read_clash(
                    entry@,
                    writes@,
                    reads@,
                    i as int,
                    k as int,
                ),
                disjoint_problem(entry@, writes@, reads@) == clash_from(
                    entry@,
                    writes@,
                    reads@,
                    i as int,
                ),
            decreases reads@.len() - k,
        {
            let (read_name, read) = reads[k];
            if lhs.aliases(read) {
                return Err(
                    Msg::new(entry).text(": writable buffer ").text(lhs_name).text(
                        " overlaps read-only buffer ",
                    ).text(read_name).done(),
                );
            }
            k += 1;
        }
        i += 1;
    }
    Ok(())
}

/// The alias check passes exactly when the written buffers are pairwise
/// distinct and none is read.
pub proof fn law_disjoint_check_is_exact(
    entry: Seq<char>,
    writes: Seq<(&str, &Storage)>,
    reads: Seq<(&str, &Storage)>,
)
    ensures
        disjoint_problem(entry, writes, reads) is None <==> {
            &&& forall|i: int, j: int|
                0 <= i < j < writes.len() ==> !same_storage(
                    *(#[trigger] writes[i]).1,
                    *(#[trigger] writes[j]).1,
                )
            &&& forall|i: int, j: int|
                0 <= i < writes.len() && 0 <= j < reads.len() ==> !same_storage(
                    *(#[trigger] writes[i]).1,
                    *(#[trigger] reads[j]).1,
                )
        },
{
    lemma_clash_from(entry, writes, reads, 0);
}

proof fn lemma_write_clash(entry: Seq<char>, writes: Seq<(&str, &Storage)>, i: int, j: int)
    requires
        0 <= i < writes.len(),
        0 <= j,
    ensures
        write_clash(entry, writes, i, j) is None <==> forall|k: int|
            j <= k < writes.len() ==> !same_storage(*writes[i].1, *(#[trigger] writes[k]).1),
    decreases writes.len() - j,
{
    if j < writes.len() && !same_storage(*writes[i].1, *writes[j].1) {
        lemma_write_clash(entry, writes, i, j + 1);
        assert(write_clash(entry, writes, i, j) == write_clash(entry, writes, i, j + 1));
        assert forall|k: int| j <= k < writes.len() && write_clash(entry, writes, i, j + 1) is None implies !same_storage(
            *writes[i].1,
            *(#[trigger] writes[k]).1,
        ) by {
            if k > j {
            }
        }
    } else if j < writes.len() {
        assert(same_storage(*writes[i].1, *writes[j].1));
    }
}

proof fn lemma_read_clash(
    entry: Seq<char>,
    writes: Seq<(&str, &Storage)>,
    reads: Seq<(&str, &Storage)>,
    i: int,
    j: int,
)
    requires
        0 <= i < writes.len(),
        0 <= j,
    ensures
        read_clash(entry, writes, reads, i, j) is None <==> forall|k: int|
            j <= k < reads.len() ==> !same_storage(*writes[i].1, *(#[trigger] reads[k]).1),
    decreases reads.len() - j,
{
    if j < reads.len() && !same_storage(*writes[i].1, *reads[j].1) {
        lemma_read_clash(entry, writes, reads, i, j + 1);
        assert forall|k: int| j <= k < reads.len() && read_clash(entry, writes, reads, i, j + 1) is None implies !same_storage(
            *writes[i].1,
            *(#[trigger] reads[k]).1,
        ) by {
            if k > j {
            }
        }
    } else if j < reads.len() {
        assert(same_storage(*writes[i].1, *reads[j].1));
    }
}

proof fn lemma_clash_from(
    entry: Seq<char>,
    writes: Seq<(&str, &Storage)>,
    reads: Seq<(&str, &Storage)>,
    n: int,
)
    requires
        0 <= n,
    ensures
        clash_from(entry, writes, reads, n) is None <==> {
            &&& forall|i: int, j: int|
                n <= i < j < writes.len() ==> !same_storage(
                    *(#[trigger] writes[i]).1,
                    *(#[trigger] writes[j]).1,
                )
            &&& forall|i: int, j: int|
                n <= i < writes.len() && 0 <= j < reads.len() ==> !same_storage(
                    *(#[trigger] writes[i]).1,
                    *(#[trigger] reads[j]).1,
                )
        },
    decreases writes.len() - n,
{
    if n < writes.len() {
        lemma_write_clash(entry, writes, n, n + 1);
        lemma_read_clash(entry, writes, reads, n, 0);
        lemma_clash_from(entry, writes, reads, n + 1);
        if clash_from(entry, writes, reads, n) is None {
            assert forall|i: int, j: int| n <= i < j < writes.len() implies !same_storage(
                *(#[trigger] writes[i]).1,
                *(#[trigger] writes[j]).1,
            ) by {
                if i > n {
                }
            }
            assert forall|i: int, j: int|
                n <= i < writes.len() && 0 <= j < reads.len() implies !same_storage(
                *(#[trigger] writes[i]).1,
                *(#[trigger] reads[j]).1,
            ) by {
                if i > n {
                }
            }
        }
    }
}

// ------------------------------------------------------------- floats ------

/// A finite float, by its bit pattern.
pub open spec fn finite(bits: u32) -> bool {
    bits as int % 0x8000_0000 < 0x7f80_0000
}

/// A finite float greater than zero.
pub open spec fn positive(bits: u32) -> bool {
    0 < bits < 0x7f80_0000
}

/// A finite float that is not less than zero; negative zero is not.
pub open spec fn nonnegative(bits: u32) -> bool {
    bits < 0x7f80_0000 || bits == 0x8000_0000
}

/// A finite float, by its bit pattern.
pub fn is_finite(bits: u32) -> (r: bool)
    ensures
        r == finite(bits),
{
    bits % 0x8000_0000 < 0x7f80_0000
}

/// Notation of a float that is not finite.
pub open spec fn nonfinite_text(bits: u32) -> Seq<char> {
    if bits == 0x7f80_0000 {
        "inf"@
    } else if bits == 0xff80_0000 {
        "-inf"@
    } else {
        "NaN"@
    }
}

/// Notation of a float that is not finite.
pub fn nonfinite_str(bits: u32) -> (r: &'static str)
    ensures
        r@ == nonfinite_text(bits),
{
    if bits == 0x7f80_0000 {
        "inf"
    } else if bits == 0xff80_0000 {
        "-inf"
    } else {
        "NaN"
    }
}

// ------------------------------------------------------------ geometry -----

/// Lanes of a tree reduction: the greatest power of two that the pipeline, the
/// kernel's scratch and the request admit.
pub open spec fn reduction_lanes(max_threads: int, want: int, scratch: int) -> int {
    pow2_floor(most(least(least(max_threads, scratch), want), 1))
}

/// Lanes of a tree reduction.
pub fn reduction_tptg(max_threads: usize, want: usize, tg_array_len: usize) -> (r: usize)
    ensures
        r == reduction_lanes(max_threads as int, want as int, tg_array_len as int),
        1 <= r,
        r <= most(max_threads as int, 1),
        r <= most(tg_array_len as int, 1),
        r <= most(want as int, 1),
{
    let cap: usize = max_usize(min_usize(min_usize(max_threads, tg_array_len), want), 1);
    prev_pow2(cap)
}

/// Scratch depth of the row reductions.
pub const REDUCE_MAX_TG: usize = 1024;

/// Lanes of a row reduction over `cols` columns.
pub open spec fn row_lanes(max_threads: usize, cols: usize) -> usize {
    reduction_lanes(max_threads as int, pow2_ceil(cols as int), 1024) as usize
}

/// Lanes of a row reduction: a power of two, capped by the kernel's scratch and
/// the pipeline, and by the row's width rounded up.
pub fn reduce_tptg(max_threads: usize, cols: usize) -> (r: usize)
    ensures
        r == row_lanes(max_threads, cols),
        1 <= r <= 1024,
{
    proof {
        crate::sizes::lemma_pow2_ceil(cols as int);
        crate::sizes::lemma_pow2_floor(
            most(least(least(max_threads as int, 1024), pow2_ceil(cols as int)), 1),
        );
    }
    let want: usize = match next_pow2_within(cols, REDUCE_MAX_TG) {
        Some(w) => w,
        None => REDUCE_MAX_TG,
    };
    reduction_tptg(max_threads, want, REDUCE_MAX_TG)
}

// --------------------------------------------------------------- binds -----

/// A whole-buffer bind.
pub fn buf(b: &Storage, index: usize) -> (r: Bind)
    ensures
        r == at(*b, index),
{
    Bind::Buffer { buf: *b, index }
}

/// A whole-buffer bind.
pub open spec fn at(buf: Storage, index: usize) -> Bind {
    Bind::Buffer { buf, index }
}

/// A word bind.
pub fn word(value: u32, index: usize) -> (r: Bind)
    ensures
        r == word_at(value, index),
{
    Bind::U32 { value, index }
}

/// A word bind.
pub open spec fn word_at(value: u32, index: usize) -> Bind {
    Bind::U32 { value, index }
}

/// A float bind.
pub fn float(bits: u32, index: usize) -> (r: Bind)
    ensures
        r == float_at(bits, index),
{
    Bind::F32 { bits, index }
}

/// A float bind.
pub open spec fn float_at(bits: u32, index: usize) -> Bind {
    Bind::F32 { bits, index }
}

/// `head` followed by `tail`.
pub fn bind_list(head: &[Bind], tail: &[Bind]) -> (r: Vec<Bind>)
    ensures
        r@ == head@ + tail@,
{
    let mut r: Vec<Bind> = Vec::new();
    let mut i: usize = 0;
    while i < head.len()
        invariant
            i <= head@.len(),
            r@ == head@.take(i as int),
        decreases head@.len() - i,
    {
        r.push(head[i]);
        assert(head@.take(i + 1) == head@.take(i as int).push(head@[i as int]));
        i += 1;
    }
    assert(head@.take(i as int) == head@);
    let mut j: usize = 0;
    while j < tail.len()
        invariant
            j <= tail@.len(),
            r@ == head@ + tail@.take(j as int),
        decreases tail@.len() - j,
    {
        r.push(tail[j]);
        assert(tail@.take(j + 1) == tail@.take(j as int).push(tail@[j as int]));
        assert(r@ =~= head@ + tail@.take(j + 1));
        j += 1;
    }
    assert(tail@.take(j as int) == tail@);
    r
}

} // verus!
