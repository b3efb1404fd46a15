//! GEMV and small GEMM over quantized weights, and quantized embedding lookup.

use vstd::prelude::*;

use crate::device::Pipeline;
use crate::dispatch::{launch_1d, launch_groups, Bind};
use crate::nn::check::{
    at, at_opt, bind_list, buf, disjoint_problem, elems, encodes, finite, float, float_at, is_finite,
    nonfinite_str, nonfinite_text, overflow_message, reduction_lanes, reduction_tptg, require,
    require_disjoint_writes, require_problem, storage_of, word, word_at, BYTE, HALF, WORD,
};
use crate::nn::quant::{
    simd_gemv_threadgroups, simd_groups, Q4Bank, Q4BankAt, Q4MlxBank, Q4MlxBankAt, QuantShape,
    SIMD_TPTG,
};
use crate::runtime::GpuRuntime;
use crate::sizes::{ceil_div, div_ceil, least, max_usize, min_usize, most};
use crate::state::RuntimeState;
use crate::tensor::{GpuBuffer, Storage};
use crate::text::{decimal, first, join, owned, reports, unless, Msg};
use crate::seen::{beside, carried, dispatch, from_slot, in_view, rising};
use crate::nn::attention_laws::{bit};
use crate::nn::gemv_laws::{batch_simd_seen, blocked_seen, embed_lookup_q4_mlx_seen, embed_lookup_q4_seen, gate_up_seen, i8_seen, kv_seen, law_batch_simd, law_blocked, law_embed_lookup_q4, law_embed_lookup_q4_mlx, law_gate_up, law_i8, law_kv, law_q4, law_q8, law_qkv, law_rows_of_bank, law_simd, q4_seen, q8_seen, qkv_seen, row_seen, simd_seen};

verus! {

/// What is wrong with Q8 groups.
pub open spec fn q8_group_problem(cols: u32, group_size: u32) -> Option<Seq<char>> {
    first(
        unless(group_size != 0, "gemv_q8: group_size must be non-zero"@),
        unless(
            cols % group_size == 0,
            "gemv_q8: cols "@ + decimal(cols as nat) + " is not a multiple of group_size "@
                + decimal(group_size as nat)
                + "; the kernel would silently drop the ragged tail group"@,
        ),
    )
}

fn require_q8_groups(cols: u32, group_size: u32) -> (r: Result<(), String>)
    ensures
        reports(r, q8_group_problem(cols, group_size)),
{
    if group_size == 0 {
        return Err(owned("gemv_q8: group_size must be non-zero"));
    }
    if cols % group_size != 0 {
        return Err(
            Msg::new("gemv_q8: cols ").num(cols as usize).text(
                " is not a multiple of group_size ",
            ).num(group_size as usize).text(
                "; the kernel would silently drop the ragged tail group",
            ).done(),
        );
    }
    Ok(())
}

/// Effect of [`gemv_q8_with_scalars`].
pub open spec fn gemv_q8_step(
    rt: RuntimeState,
    packed: Storage,
    scales: Storage,
    zeros: Storage,
    x: Storage,
    y: Storage,
    rows: u32,
    cols: u32,
    group_size: u32,
    scalars: Seq<Bind>,
) -> (RuntimeState, Option<Seq<char>>) {
    let weights = rows * cols;
    let groups = rows * (cols / group_size);
    rt.guarded(
        first(
            q8_group_problem(cols, group_size),
            first(
                unless(weights <= usize::MAX, overflow_message("gemv_q8"@)),
                first(
                    unless(groups <= usize::MAX, overflow_message("gemv_q8 groups"@)),
                    first(
                        require_problem(rt.id, packed, weights, 1, "gemv_q8 packed"@),
                        first(
                            require_problem(rt.id, scales, groups, 4, "gemv_q8 scales"@),
                            first(
                                require_problem(rt.id, zeros, groups, 4, "gemv_q8 zeros"@),
                                first(
                                    require_problem(rt.id, x, cols as int, 4, "gemv_q8 x"@),
                                    require_problem(rt.id, y, rows as int, 4, "gemv_q8 y"@),
                                ),
                            ),
                        ),
                    ),
                ),
            ),
        ),
        rows == 0,
        disjoint_problem(
            "gemv_q8"@,
            seq![("y", &y)],
            seq![("packed", &packed), ("scales", &scales), ("zeros", &zeros), ("x", &x)],
        ),
        rt.kernel_groups(
            "gemv_q8"@,
            seq![at(packed, 0), at(scales, 1), at(zeros, 2), at(x, 3), at(y, 4)] + scalars,
            None,
            simd_groups(rows),
            1,
            |p: Pipeline| 64,
        ),
    )
}

/// [`gemv_q8`] with caller-supplied scalar binds: 5 = `rows`, 6 = `cols`,
/// 7 = `group_size`.
pub fn gemv_q8_with_scalars(
    rt: &mut GpuRuntime,
    packed: &GpuBuffer,
    scales: &GpuBuffer,
    zeros: &GpuBuffer,
    x: &GpuBuffer,
    y: &GpuBuffer,
    rows: u32,
    cols: u32,
    group_size: u32,
    scalars: &[Bind],
) -> (r: Result<(), String>)
    requires
        old(rt).inv(),
    ensures
        final(rt).inv(),
        encodes(
            old(rt)@,
            final(rt)@,
            r,
            gemv_q8_step(
                old(rt)@,
                packed@,
                scales@,
                zeros@,
                x@,
                y@,
                rows,
                cols,
                group_size,
                scalars@,
            ),
        ),
        r is Ok && rows > 0 && from_slot(scalars@, 5) && in_view(old(rt)@, final(rt)@) ==> q8_seen(
            old(rt)@,
            final(rt)@,
            packed@,
            scales@,
            zeros@,
            x@,
            y@,
            rows,
            cols,
            group_size,
            scalars@,
        ),
{
    broadcast use law_q8;

    let packed = &packed.at();
    let scales = &scales.at();
    let zeros = &zeros.at();
    let x = &x.at();
    let y = &y.at();
    let id: u64 = rt.id();
    require_q8_groups(cols, group_size)?;
    let weights: usize = elems(rows, cols, "gemv_q8")?;
    let groups: usize = elems(rows, cols / group_size, "gemv_q8 groups")?;
    require(id, packed, weights, BYTE, "gemv_q8 packed")?;
    require(id, scales, groups, WORD, "gemv_q8 scales")?;
    require(id, zeros, groups, WORD, "gemv_q8 zeros")?;
    require(id, x, cols as usize, WORD, "gemv_q8 x")?;
    require(id, y, rows as usize, WORD, "gemv_q8 y")?;
    if rows == 0 {
        return Ok(());
    }
    let writes = [("y", y)];
    let reads = [("packed", packed), ("scales", scales), ("zeros", zeros), ("x", x)];
    assert(writes@ =~= seq![("y", y)]);
    assert(reads@ =~= seq![("packed", packed), ("scales", scales), ("zeros", zeros), ("x", x)]);
    require_disjoint_writes("gemv_q8", &writes, &reads)?;
    let p = rt.pipeline("gemv_q8")?;
    let head = [buf(packed, 0), buf(scales, 1), buf(zeros, 2), buf(x, 3), buf(y, 4)];
    assert(head@ =~= seq![at(*packed, 0), at(*scales, 1), at(*zeros, 2), at(*x, 3), at(*y, 4)]);
    let binds = bind_list(&head, scalars);
    let tptg: usize = SIMD_TPTG;
    launch_groups(rt, &p, binds.as_slice(), None, simd_gemv_threadgroups(rows), 1, tptg)
}

/// `y[rows] = W[rows, cols] @ x[cols]` with group-wise affine Q8 weights,
/// `w = scale * (packed - zero)`. `scales` and `zeros` hold one float per group.
pub fn gemv_q8(
    rt: &mut GpuRuntime,
    packed: &GpuBuffer,
    scales: &GpuBuffer,
    zeros: &GpuBuffer,
    x: &GpuBuffer,
    y: &GpuBuffer,
    rows: u32,
    cols: u32,
    group_size: u32,
) -> (r: Result<(), String>)
    requires
        old(rt).inv(),
    ensures
        final(rt).inv(),
        encodes(
            old(rt)@,
            final(rt)@,
            r,
            gemv_q8_step(
                old(rt)@,
                packed@,
                scales@,
                zeros@,
                x@,
                y@,
                rows,
                cols,
                group_size,
                seq![word_at(rows, 5), word_at(cols, 6), word_at(group_size, 7)],
            ),
        ),
        r is Ok && rows > 0 && in_view(old(rt)@, final(rt)@) ==> ({
                let l = dispatch(old(rt)@, final(rt)@);
                &&& q8_seen(
                    old(rt)@,
                    final(rt)@,
                    packed@,
                    scales@,
                    zeros@,
                    x@,
                    y@,
                    rows,
                    cols,
                    group_size,
                    Seq::empty(),
                )
                &&& l.reads(5, rows)
                &&& l.reads(6, cols)
                &&& l.reads(7, group_size)
            }),
{
    proof {
        reveal_with_fuel(rising, 8);
        reveal(carried);
    }
    let scalars = [word(rows, 5), word(cols, 6), word(group_size, 7)];
    assert(scalars@ =~= seq![word_at(rows, 5), word_at(cols, 6), word_at(group_size, 7)]);
    gemv_q8_with_scalars(rt, packed, scales, zeros, x, y, rows, cols, group_size, &scalars)
}

/// Lanes of a tiled Q4 GEMV, which walks one threadgroup per row.
pub const GEMV_TILED_TPTG: usize = 128;

/// Lanes of a one-thread-per-row Q4 GEMV.
pub const GEMV_ROW_TPTG: usize = 128;

/// Kernel of [`gemv_q4`].
pub open spec fn q4_entry(tiled: bool) -> Seq<char> {
    if tiled {
        "gemv_q4_tiled"@
    } else {
        "gemv_q4"@
    }
}

/// Threadgroup memory that caches `cols` floats.
pub open spec fn x_cache_bytes(cols: u32) -> usize {
    least(cols * 4, usize::MAX as int) as usize
}

/// Where the device cannot cache the activation vector.
pub open spec fn x_cache_problem(entry: Seq<char>, cols: u32, limit: usize) -> Option<Seq<char>> {
    unless(
        x_cache_bytes(cols) <= limit,
        entry + ": caching x needs "@ + decimal(x_cache_bytes(cols) as nat)
            + " bytes of threadgroup memory but this device allows "@ + decimal(limit as nat)
            + "; cols "@ + decimal(cols as nat) + " is too large for this kernel"@,
    )
}

/// The cache size, or the refusal where the device cannot hold it.
fn require_x_cache(entry: &str, cols: u32, limit: usize) -> (r: Result<usize, String>)
    ensures
        match r {
            Ok(bytes) => x_cache_problem(entry@, cols, limit) is None && bytes == x_cache_bytes(
                cols,
            ),
            Err(e) => x_cache_problem(entry@, cols, limit) == Some(e@),
        },
{
    let bytes: usize = match (cols as usize).checked_mul(4) {
        Some(b) => b,
        None => usize::MAX,
    };
    if bytes > limit {
        return Err(
            Msg::new(entry).text(": caching x needs ").num(bytes).text(
                " bytes of threadgroup memory but this device allows ",
            ).num(limit).text("; cols ").num(cols as usize).text(
                " is too large for this kernel",
            ).done(),
        );
    }
    Ok(bytes)
}

/// Looks up a [`gemv_q4`] kernel and launches it: one threadgroup per row where
/// tiled, else eight rows per threadgroup, with `x` small enough to be staged.
pub open spec fn q4_launch(
    rt: RuntimeState,
    tiled: bool,
    shape: QuantShape,
    binds: Seq<Bind>,
) -> (RuntimeState, Option<Seq<char>>) {
    let (s, r) = rt.piped(q4_entry(tiled));
    match r {
        Err(m) => (s, Some(m)),
        Ok(p) => if tiled {
            s.launched_groups(p, binds, None, shape.rows as usize, 1, 128)
        } else {
            match x_cache_problem(q4_entry(tiled), shape.cols, s.info.max_threadgroup_memory) {
                Some(m) => (s, Some(m)),
                None => s.launched_groups(p, binds, None, simd_groups(shape.rows), 1, 64),
            }
        },
    }
}

/// Effect of [`gemv_q4_with_scalars`].
pub open spec fn gemv_q4_step(
    rt: RuntimeState,
    bank: Q4BankAt,
    x: Storage,
    y: Storage,
    shape: QuantShape,
    tiled: bool,
    scalars: Seq<Bind>,
) -> (RuntimeState, Option<Seq<char>>) {
    let entry = q4_entry(tiled);
    rt.guarded(
        first(
            bank.problem(rt.id, shape, entry),
            first(
                require_problem(rt.id, x, shape.cols as int, 4, entry + " x"@),
                require_problem(rt.id, y, shape.rows as int, 4, entry + " y"@),
            ),
        ),
        shape.rows == 0,
        disjoint_problem(
            "gemv_q4"@,
            seq![("y", &y)],
            seq![
                ("packed", &bank.packed),
                ("scales", &bank.scales),
                ("zeros", &bank.zeros),
                ("x", &x),
            ],
        ),
        q4_launch(
            rt,
            tiled,
            shape,
            seq![
                at(bank.packed, 0),
                at(bank.scales, 1),
                at(bank.zeros, 2),
                at(x, 3),
                at(y, 4),
            ] + scalars,
        ),
    )
}

/// [`gemv_q4`] with caller-supplied scalar binds: 5 = `rows`, 6 = `cols`,
/// 7 = `group_size`.
pub fn gemv_q4_with_scalars(
    rt: &mut GpuRuntime,
    bank: Q4Bank,
    x: &GpuBuffer,
    y: &GpuBuffer,
    shape: QuantShape,
    tiled: bool,
    scalars: &[Bind],
) -> (r: Result<(), String>)
    requires
        old(rt).inv(),
    ensures
        final(rt).inv(),
        encodes(
            old(rt)@,
            final(rt)@,
            r,
            gemv_q4_step(old(rt)@, bank@, x@, y@, shape, tiled, scalars@),
        ),
        r is Ok && shape.rows > 0 && from_slot(scalars@, 5) && in_view(old(rt)@, final(rt)@) ==> q4_seen(
            old(rt)@,
            final(rt)@,
            bank@,
            x@,
            y@,
            shape,
            tiled,
            scalars@,
        ),
{
    broadcast use law_q4;

    let x = &x.at();
    let y = &y.at();
    let bank = bank.at();
    let id: u64 = rt.id();
    let entry = if tiled {
        "gemv_q4_tiled"
    } else {
        "gemv_q4"
    };
    bank.validate(id, &shape, entry)?;
    require(id, x, shape.cols as usize, WORD, join(entry, " x").as_str())?;
    require(id, y, shape.rows as usize, WORD, join(entry, " y").as_str())?;
    if shape.rows == 0 {
        return Ok(());
    }
    let writes = [("y", y)];
    assert(writes@ =~= seq![("y", y)]);
    let reads = [
        ("packed", &bank.packed),
        ("scales", &bank.scales),
        ("zeros", &bank.zeros),
        ("x", x),
    ];
    assert(reads@ =~= seq![
        ("packed", &bank.packed),
        ("scales", &bank.scales),
        ("zeros", &bank.zeros),
        ("x", x),
    ]);
    require_disjoint_writes("gemv_q4", &writes, &reads)?;
    let p = rt.pipeline(entry)?;
    let (groups, tptg): (usize, usize) = if tiled {
        (shape.rows as usize, GEMV_TILED_TPTG)
    } else {
        require_x_cache(entry, shape.cols, rt.max_threadgroup_memory())?;
        (simd_gemv_threadgroups(shape.rows), SIMD_TPTG)
    };
    let head = [
        buf(&bank.packed, 0),
        buf(&bank.scales, 1),
        buf(&bank.zeros, 2),
        buf(x, 3),
        buf(y, 4),
    ];
    assert(head@ =~= seq![
        at(bank.packed, 0),
        at(bank.scales, 1),
        at(bank.zeros, 2),
        at(*x, 3),
        at(*y, 4),
    ]);
    let binds = bind_list(&head, scalars);
    launch_groups(rt, &p, binds.as_slice(), None, groups, 1, tptg)
}

/// The three shape scalars from slot `base` on.
pub open spec fn shape_words(shape: QuantShape, base: usize) -> Seq<Bind> {
    seq![
        word_at(shape.rows, base),
        word_at(shape.cols, (base + 1) as usize),
        word_at(shape.group_size, (base + 2) as usize),
    ]
}

fn shape_scalars(shape: &QuantShape, base: usize) -> (r: [Bind; 3])
    requires
        base < 100,
    ensures
        r@ == shape_words(*shape, base),
{
    let r = [
        word(shape.rows, base),
        word(shape.cols, base + 1),
        word(shape.group_size, base + 2),
    ];
    assert(r@ =~= shape_words(*shape, base));
    r
}

/// `y[rows] = W[rows, cols] @ x[cols]` with [`Q4BankAt`] weights. The activation
/// vector has to fit threadgroup memory, unless `tiled`, which walks one
/// threadgroup per row instead of eight rows per threadgroup.
pub fn gemv_q4(
    rt: &mut GpuRuntime,
    bank: Q4Bank,
    x: &GpuBuffer,
    y: &GpuBuffer,
    shape: QuantShape,
    tiled: bool,
) -> (r: Result<(), String>)
    requires
        old(rt).inv(),
    ensures
        final(rt).inv(),
        encodes(
            old(rt)@,
            final(rt)@,
            r,
            gemv_q4_step(old(rt)@, bank@, x@, y@, shape, tiled, shape_words(shape, 5)),
        ),
        r is Ok && shape.rows > 0 && in_view(old(rt)@, final(rt)@) ==> ({
                let l = dispatch(old(rt)@, final(rt)@);
                &&& q4_seen(
                    old(rt)@,
                    final(rt)@,
                    bank@,
                    x@,
                    y@,
                    shape,
                    tiled,
                    Seq::empty(),
                )
                &&& l.reads(5, shape.rows)
                &&& l.reads(6, shape.cols)
                &&& l.reads(7, shape.group_size)
            }),
{
    proof {
        reveal_with_fuel(rising, 8);
        reveal(carried);
    }
    let scalars = shape_scalars(&shape, 5);
    gemv_q4_with_scalars(rt, bank, x, y, shape, tiled, &scalars)
}


/// Effect of [`embed_lookup_q4_with_scalars`].
pub open spec fn embed_lookup_q4_step(
    rt: RuntimeState,
    bank: Q4BankAt,
    token_ids: Storage,
    out: Storage,
    vocab: u32,
    hidden: u32,
    group_size: u32,
    n_tokens: u32,
    scalars: Seq<Bind>,
) -> (RuntimeState, Option<Seq<char>>) {
    let shape = QuantShape { rows: vocab, cols: hidden, group_size };
    let total = n_tokens * hidden;
    rt.guarded(
        first(
            bank.problem(rt.id, shape, "embed_lookup_q4"@),
            first(
                unless(total <= usize::MAX, overflow_message("embed_lookup_q4"@)),
                first(
                    require_problem(
                        rt.id,
                        token_ids,
                        n_tokens as int,
                        4,
                        "embed_lookup_q4 token_ids"@,
                    ),
                    require_problem(rt.id, out, total, 4, "embed_lookup_q4 out"@),
                ),
            ),
        ),
        false,
        disjoint_problem(
            "embed_lookup_q4"@,
            seq![("out", &out)],
            seq![
                ("packed", &bank.packed),
                ("scales", &bank.scales),
                ("zeros", &bank.zeros),
                ("token_ids", &token_ids),
            ],
        ),
        rt.kernel_1d(
            "embed_lookup_q4"@,
            total as usize,
            seq![
                at(bank.packed, 0),
                at(bank.scales, 1),
                at(bank.zeros, 2),
                at(token_ids, 3),
                at(out, 4),
            ]
                + scalars,
        ),
    )
}

/// [`embed_lookup_q4`] with caller-supplied scalar binds: 5 = `hidden`,
/// 6 = `group_size`, 7 = `vocab`, 8 = `n_tokens`.
pub fn embed_lookup_q4_with_scalars(
    rt: &mut GpuRuntime,
    bank: Q4Bank,
    token_ids: &GpuBuffer,
    out: &GpuBuffer,
    vocab: u32,
    hidden: u32,
    group_size: u32,
    n_tokens: u32,
    scalars: &[Bind],
) -> (r: Result<(), String>)
    requires
        old(rt).inv(),
    ensures
        final(rt).inv(),
        encodes(
            old(rt)@,
            final(rt)@,
            r,
            embed_lookup_q4_step(
                old(rt)@,
                bank@,
                token_ids@,
                out@,
                vocab,
                hidden,
                group_size,
                n_tokens,
                scalars@,
            ),
        ),
        r is Ok && n_tokens > 0 && hidden > 0 && from_slot(scalars@, 5) && in_view(old(rt)@, final(rt)@) ==> embed_lookup_q4_seen(
            old(rt)@,
            final(rt)@,
            bank@,
            token_ids@,
            out@,
            vocab,
            hidden,
            group_size,
            n_tokens,
            scalars@,
        ),
{
    broadcast use law_embed_lookup_q4;

    let token_ids = &token_ids.at();
    let out = &out.at();
    let bank = bank.at();
    let id: u64 = rt.id();
    let shape = QuantShape { rows: vocab, cols: hidden, group_size };
    bank.validate(id, &shape, "embed_lookup_q4")?;
    let total: usize = elems(n_tokens, hidden, "embed_lookup_q4")?;
    require(id, token_ids, n_tokens as usize, WORD, "embed_lookup_q4 token_ids")?;
    require(id, out, total, WORD, "embed_lookup_q4 out")?;
    let writes = [("out", out)];
    assert(writes@ =~= seq![("out", out)]);
    let reads = [
        ("packed", &bank.packed),
        ("scales", &bank.scales),
        ("zeros", &bank.zeros),
        ("token_ids", token_ids),
    ];
    assert(
        reads@ =~= seq![
            ("packed", &bank.packed),
            ("scales", &bank.scales),
            ("zeros", &bank.zeros),
            ("token_ids", token_ids),
        ]
    );
    require_disjoint_writes("embed_lookup_q4", &writes, &reads)?;
    let p = rt.pipeline("embed_lookup_q4")?;
    let head = [
        buf(&bank.packed, 0),
        buf(&bank.scales, 1),
        buf(&bank.zeros, 2),
        buf(token_ids, 3),
        buf(out, 4),
    ];
    assert(
        head@ =~= seq![
            at(bank.packed, 0),
            at(bank.scales, 1),
            at(bank.zeros, 2),
            at(*token_ids, 3),
            at(*out, 4),
        ]
    );
    let binds = bind_list(&head, scalars);
    launch_1d(rt, &p, total, binds.as_slice())
}

/// Gathers `n_tokens` embedding rows from a quantized table into `out`,
/// dequantizing on the device. Token ids at or beyond `vocab` yield a zero row.
pub fn embed_lookup_q4(
    rt: &mut GpuRuntime,
    bank: Q4Bank,
    token_ids: &GpuBuffer,
    out: &GpuBuffer,
    vocab: u32,
    hidden: u32,
    group_size: u32,
    n_tokens: u32,
) -> (r: Result<(), String>)
    requires
        old(rt).inv(),
    ensures
        final(rt).inv(),
        encodes(
            old(rt)@,
            final(rt)@,
            r,
            embed_lookup_q4_step(
                old(rt)@,
                bank@,
                token_ids@,
                out@,
                vocab,
                hidden,
                group_size,
                n_tokens,
                seq![
                    word_at(hidden, 5),
                    word_at(group_size, 6),
                    word_at(vocab, 7),
                    word_at(n_tokens, 8),
                ],
            ),
        ),
        r is Ok && n_tokens > 0 && hidden > 0 && in_view(old(rt)@, final(rt)@) ==> ({
                let l = dispatch(old(rt)@, final(rt)@);
                &&& embed_lookup_q4_seen(
                    old(rt)@,
                    final(rt)@,
                    bank@,
                    token_ids@,
                    out@,
                    vocab,
                    hidden,
                    group_size,
                    n_tokens,
                    Seq::empty(),
                )
                &&& l.reads(5, hidden)
                &&& l.reads(6, group_size)
                &&& l.reads(7, vocab)
                &&& l.reads(8, n_tokens)
            }),
{
    proof {
        reveal_with_fuel(rising, 8);
        reveal(carried);
    }
    let scalars = [word(hidden, 5), word(group_size, 6), word(vocab, 7), word(n_tokens, 8)];
    assert(scalars@ =~= seq![
        word_at(hidden, 5),
        word_at(group_size, 6),
        word_at(vocab, 7),
        word_at(n_tokens, 8),
    ]);
    embed_lookup_q4_with_scalars(
        rt,
        bank,
        token_ids,
        out,
        vocab,
        hidden,
        group_size,
        n_tokens,
        &scalars,
    )
}


/// Effect of [`embed_lookup_q4_mlx_with_scalars`].
pub open spec fn embed_lookup_q4_mlx_step(
    rt: RuntimeState,
    bank: Q4MlxBankAt,
    token_ids: Storage,
    out: Storage,
    vocab: u32,
    hidden: u32,
    group_size: u32,
    n_tokens: u32,
    scalars: Seq<Bind>,
) -> (RuntimeState, Option<Seq<char>>) {
    let shape = QuantShape { rows: vocab, cols: hidden, group_size };
    let total = n_tokens * hidden;
    rt.guarded(
        first(
            bank.problem(rt.id, shape, "embed_lookup_q4_mlx"@),
            first(
                unless(total <= usize::MAX, overflow_message("embed_lookup_q4_mlx"@)),
                first(
                    require_problem(
                        rt.id,
                        token_ids,
                        n_tokens as int,
                        4,
                        "embed_lookup_q4_mlx token_ids"@,
                    ),
                    require_problem(rt.id, out, total, 4, "embed_lookup_q4_mlx out"@),
                ),
            ),
        ),
        false,
        disjoint_problem(
            "embed_lookup_q4_mlx"@,
            seq![("out", &out)],
            seq![
                ("packed", &bank.packed),
                ("scales_biases", &bank.scales_biases),
                ("token_ids", &token_ids),
            ],
        ),
        rt.kernel_1d(
            "embed_lookup_q4_mlx"@,
            total as usize,
            seq![
                at(bank.packed, 0),
                at(bank.scales_biases, 1),
                at(bank.scales_biases, 2),
                at(token_ids, 3),
                at(out, 4),
            ]
                + scalars,
        ),
    )
}

/// [`embed_lookup_q4_mlx`] with caller-supplied scalar binds: 5 = `hidden`,
/// 6 = `group_size`, 7 = `vocab`, 8 = `n_tokens`.
pub fn embed_lookup_q4_mlx_with_scalars(
    rt: &mut GpuRuntime,
    bank: Q4MlxBank,
    token_ids: &GpuBuffer,
    out: &GpuBuffer,
    vocab: u32,
    hidden: u32,
    group_size: u32,
    n_tokens: u32,
    scalars: &[Bind],
) -> (r: Result<(), String>)
    requires
        old(rt).inv(),
    ensures
        final(rt).inv(),
        encodes(
            old(rt)@,
            final(rt)@,
            r,
            embed_lookup_q4_mlx_step(
                old(rt)@,
                bank@,
                token_ids@,
                out@,
                vocab,
                hidden,
                group_size,
                n_tokens,
                scalars@,
            ),
        ),
        r is Ok && n_tokens > 0 && hidden > 0 && from_slot(scalars@, 5) && in_view(old(rt)@, final(rt)@) ==> embed_lookup_q4_mlx_seen(
            old(rt)@,
            final(rt)@,
            bank@,
            token_ids@,
            out@,
            vocab,
            hidden,
            group_size,
            n_tokens,
            scalars@,
        ),
{
    broadcast use law_embed_lookup_q4_mlx;

    let token_ids = &token_ids.at();
    let out = &out.at();
    let bank = bank.at();
    let id: u64 = rt.id();
    let shape = QuantShape { rows: vocab, cols: hidden, group_size };
    bank.validate(id, &shape, "embed_lookup_q4_mlx")?;
    let total: usize = elems(n_tokens, hidden, "embed_lookup_q4_mlx")?;
    require(id, token_ids, n_tokens as usize, WORD, "embed_lookup_q4_mlx token_ids")?;
    require(id, out, total, WORD, "embed_lookup_q4_mlx out")?;
    let writes = [("out", out)];
    assert(writes@ =~= seq![("out", out)]);
    let reads = [
        ("packed", &bank.packed),
        ("scales_biases", &bank.scales_biases),
        ("token_ids", token_ids),
    ];
    assert(
        reads@ =~= seq![
            ("packed", &bank.packed),
            ("scales_biases", &bank.scales_biases),
            ("token_ids", token_ids),
        ]
    );
    require_disjoint_writes("embed_lookup_q4_mlx", &writes, &reads)?;
    let p = rt.pipeline("embed_lookup_q4_mlx")?;
    let head = [
        buf(&bank.packed, 0),
        buf(&bank.scales_biases, 1),
        buf(&bank.scales_biases, 2),
        buf(token_ids, 3),
        buf(out, 4),
    ];
    assert(
        head@ =~= seq![
            at(bank.packed, 0),
            at(bank.scales_biases, 1),
            at(bank.scales_biases, 2),
            at(*token_ids, 3),
            at(*out, 4),
        ]
    );
    let binds = bind_list(&head, scalars);
    launch_1d(rt, &p, total, binds.as_slice())
}

/// Gathers `n_tokens` embedding rows from a MLX-format table into `out`,
/// dequantizing on the device. Token ids at or beyond `vocab` yield a zero row.
pub fn embed_lookup_q4_mlx(
    rt: &mut GpuRuntime,
    bank: Q4MlxBank,
    token_ids: &GpuBuffer,
    out: &GpuBuffer,
    vocab: u32,
    hidden: u32,
    group_size: u32,
    n_tokens: u32,
) -> (r: Result<(), String>)
    requires
        old(rt).inv(),
    ensures
        final(rt).inv(),
        encodes(
            old(rt)@,
            final(rt)@,
            r,
            embed_lookup_q4_mlx_step(
                old(rt)@,
                bank@,
                token_ids@,
                out@,
                vocab,
                hidden,
                group_size,
                n_tokens,
                seq![
                    word_at(hidden, 5),
                    word_at(group_size, 6),
                    word_at(vocab, 7),
                    word_at(n_tokens, 8),
                ],
            ),
        ),
        r is Ok && n_tokens > 0 && hidden > 0 && in_view(old(rt)@, final(rt)@) ==> ({
                let l = dispatch(old(rt)@, final(rt)@);
                &&& embed_lookup_q4_mlx_seen(
                    old(rt)@,
                    final(rt)@,
                    bank@,
                    token_ids@,
                    out@,
                    vocab,
                    hidden,
                    group_size,
                    n_tokens,
                    Seq::empty(),
                )
                &&& l.reads(5, hidden)
                &&& l.reads(6, group_size)
                &&& l.reads(7, vocab)
                &&& l.reads(8, n_tokens)
            }),
{
    proof {
        reveal_with_fuel(rising, 8);
        reveal(carried);
    }
    let scalars = [word(hidden, 5), word(group_size, 6), word(vocab, 7), word(n_tokens, 8)];
    assert(scalars@ =~= seq![
        word_at(hidden, 5),
        word_at(group_size, 6),
        word_at(vocab, 7),
        word_at(n_tokens, 8),
    ]);
    embed_lookup_q4_mlx_with_scalars(
        rt,
        bank,
        token_ids,
        out,
        vocab,
        hidden,
        group_size,
        n_tokens,
        &scalars,
    )
}


/// Row packing of an MLX Q4 bank: the order of nibbles within a byte, which
/// selects the kernel.
#[derive(Clone, Copy, Debug, PartialEq, Eq, Structural)]
pub enum Q4MlxLayout {
    /// Plain row-major nibbles.
    RowMajor,
    /// Interleaved for 4-bit lane gather.
    Interleaved4,
}

/// Which one-thread-per-row MLX Q4 GEMV kernel to encode.
#[derive(Clone, Copy, Debug, PartialEq, Eq, Structural)]
pub enum Q4MlxRowVariant {
    /// For very tall matrices.
    Standard,
    /// Same math, for wide-and-short projections.
    Wide,
    /// One threadgroup per row.
    Tiled,
}

impl Q4MlxRowVariant {
    /// Kernel of the variant.
    pub open spec fn kernel(self) -> Seq<char> {
        match self {
            Q4MlxRowVariant::Standard => "gemv_q4_mlx"@,
            Q4MlxRowVariant::Wide => "gemv_q4_mlx_wide"@,
            Q4MlxRowVariant::Tiled => "gemv_q4_mlx_tiled"@,
        }
    }

    fn entry(self) -> (r: &'static str)
        ensures
            r@ == self.kernel(),
    {
        match self {
            Q4MlxRowVariant::Standard => "gemv_q4_mlx",
            Q4MlxRowVariant::Wide => "gemv_q4_mlx_wide",
            Q4MlxRowVariant::Tiled => "gemv_q4_mlx_tiled",
        }
    }
}

/// An MLX bank's three consecutive binds from slot `base` on; the third slot is
/// one the kernels declare and never read.
pub open spec fn mlx_binds(bank: Q4MlxBankAt, base: usize) -> Seq<Bind> {
    seq![
        at(bank.packed, base),
        at(bank.scales_biases, (base + 1) as usize),
        at(bank.scales_biases, (base + 2) as usize),
    ]
}

fn bind_mlx_bank(bank: &Q4MlxBankAt, base: usize) -> (r: [Bind; 3])
    requires
        base < 100,
    ensures
        r@ == mlx_binds(*bank, base),
{
    let r = [
        buf(&bank.packed, base),
        buf(&bank.scales_biases, base + 1),
        buf(&bank.scales_biases, base + 2),
    ];
    assert(r@ =~= mlx_binds(*bank, base));
    r
}

/// Lanes of the one-thread-per-row kernels.
pub open spec fn row_kernel_lanes(max_threads: usize, rows: u32) -> usize {
    most(least(reduction_lanes(max_threads as int, 128, 128), rows as int), 1) as usize
}

/// Looks up a one-thread-per-row kernel and launches it.
pub open spec fn mlx_row_launch(
    rt: RuntimeState,
    variant: Q4MlxRowVariant,
    shape: QuantShape,
    binds: Seq<Bind>,
) -> (RuntimeState, Option<Seq<char>>) {
    let (s, r) = rt.piped(variant.kernel());
    match r {
        Err(m) => (s, Some(m)),
        Ok(p) => if variant == Q4MlxRowVariant::Tiled {
            s.launched_groups(p, binds, None, shape.rows as usize, 1, 128)
        } else {
            match x_cache_problem(variant.kernel(), shape.cols, s.info.max_threadgroup_memory) {
                Some(m) => (s, Some(m)),
                None => {
                    let t = row_kernel_lanes(p.max_threads, shape.rows);
                    s.launched_groups(
                        p,
                        binds,
                        Some((0, x_cache_bytes(shape.cols))),
                        ceil_div(shape.rows as int, t as int) as usize,
                        1,
                        t,
                    )
                },
            }
        },
    }
}

/// Effect of [`gemv_q4_mlx_with_scalars`]. The tiled kernel takes one
/// threadgroup per row and no threadgroup memory; the others cache `x`.
pub open spec fn gemv_q4_mlx_step(
    rt: RuntimeState,
    bank: Q4MlxBankAt,
    x: Storage,
    y: Storage,
    shape: QuantShape,
    variant: Q4MlxRowVariant,
    scalars: Seq<Bind>,
) -> (RuntimeState, Option<Seq<char>>) {
    let entry = variant.kernel();
    let binds = mlx_binds(bank, 0) + seq![at(x, 3), at(y, 4)] + scalars;
    rt.guarded(
        first(
            bank.problem(rt.id, shape, entry),
            first(
                require_problem(rt.id, x, shape.cols as int, 4, entry + " x"@),
                require_problem(rt.id, y, shape.rows as int, 4, entry + " y"@),
            ),
        ),
        shape.rows == 0,
        disjoint_problem(
            "gemv_q4_mlx"@,
            seq![("y", &y)],
            seq![("packed", &bank.packed), ("scales_biases", &bank.scales_biases), ("x", &x)],
        ),
        mlx_row_launch(rt, variant, shape, binds),
    )
}

/// [`gemv_q4_mlx`] with caller-supplied scalar binds: 5 = `rows`, 6 = `cols`,
/// 7 = `group_size`.
pub fn gemv_q4_mlx_with_scalars(
    rt: &mut GpuRuntime,
    bank: Q4MlxBank,
    x: &GpuBuffer,
    y: &GpuBuffer,
    shape: QuantShape,
    variant: Q4MlxRowVariant,
    scalars: &[Bind],
) -> (r: Result<(), String>)
    requires
        old(rt).inv(),
    ensures
        final(rt).inv(),
        encodes(
            old(rt)@,
            final(rt)@,
            r,
            gemv_q4_mlx_step(old(rt)@, bank@, x@, y@, shape, variant, scalars@),
        ),
        r is Ok && shape.rows > 0 && from_slot(scalars@, 5) && in_view(old(rt)@, final(rt)@) ==> row_seen(
            old(rt)@,
            final(rt)@,
            bank@,
            x@,
            y@,
            shape,
            variant,
            scalars@,
        ),
{
    broadcast use law_rows_of_bank;

    let x = &x.at();
    let y = &y.at();
    let bank = bank.at();
    let id: u64 = rt.id();
    let entry = variant.entry();
    bank.validate(id, &shape, entry)?;
    require(id, x, shape.cols as usize, WORD, join(entry, " x").as_str())?;
    require(id, y, shape.rows as usize, WORD, join(entry, " y").as_str())?;
    if shape.rows == 0 {
        return Ok(());
    }
    let writes = [("y", y)];
    assert(writes@ =~= seq![("y", y)]);
    let reads = [("packed", &bank.packed), ("scales_biases", &bank.scales_biases), ("x", x)];
    assert(reads@ =~= seq![
        ("packed", &bank.packed),
        ("scales_biases", &bank.scales_biases),
        ("x", x),
    ]);
    require_disjoint_writes("gemv_q4_mlx", &writes, &reads)?;
    let p = rt.pipeline(entry)?;
    let xy = [buf(x, 3), buf(y, 4)];
    assert(xy@ =~= seq![at(*x, 3), at(*y, 4)]);
    let binds = bind_list(bind_list(&bind_mlx_bank(&bank, 0), &xy).as_slice(), scalars);
    if variant == Q4MlxRowVariant::Tiled {
        return launch_groups(
            rt,
            &p,
            binds.as_slice(),
            None,
            shape.rows as usize,
            1,
            GEMV_TILED_TPTG,
        );
    }
    let bytes: usize = require_x_cache(entry, shape.cols, rt.max_threadgroup_memory())?;
    let t: usize = max_usize(
        min_usize(
            reduction_tptg(p.max_threads, GEMV_ROW_TPTG, GEMV_ROW_TPTG),
            shape.rows as usize,
        ),
        1,
    );
    launch_groups(
        rt,
        &p,
        binds.as_slice(),
        Some((0, bytes)),
        div_ceil(shape.rows as usize, t),
        1,
        t,
    )
}

/// `y = W @ x` with MLX Q4 weights and an f32 activation vector, which the
/// non-tiled kernels stage in threadgroup memory.
pub fn gemv_q4_mlx(
    rt: &mut GpuRuntime,
    bank: Q4MlxBank,
    x: &GpuBuffer,
    y: &GpuBuffer,
    shape: QuantShape,
    variant: Q4MlxRowVariant,
) -> (r: Result<(), String>)
    requires
        old(rt).inv(),
    ensures
        final(rt).inv(),
        encodes(
            old(rt)@,
            final(rt)@,
            r,
            gemv_q4_mlx_step(old(rt)@, bank@, x@, y@, shape, variant, shape_words(shape, 5)),
        ),
        r is Ok && shape.rows > 0 && in_view(old(rt)@, final(rt)@) ==> ({
                let l = dispatch(old(rt)@, final(rt)@);
                &&& row_seen(
                    old(rt)@,
                    final(rt)@,
                    bank@,
                    x@,
                    y@,
                    shape,
                    variant,
                    Seq::empty(),
                )
                &&& l.reads(5, shape.rows)
                &&& l.reads(6, shape.cols)
                &&& l.reads(7, shape.group_size)
            }),
{
    proof {
        reveal_with_fuel(rising, 8);
        reveal(carried);
    }
    let scalars = shape_scalars(&shape, 5);
    gemv_q4_mlx_with_scalars(rt, bank, x, y, shape, variant, &scalars)
}

/// Rows of a blocked threadgroup, lanes per row, and the activation slice it
/// stages at once.
pub const GEMV_BN: usize = 16;

pub const GEMV_LANES: usize = 16;

pub const GEMV_X_TILE: usize = 4096;

/// Threadgroup memory of a blocked kernel: one activation tile.
pub open spec fn x_tile_bytes(cols: u32) -> usize {
    (least(cols as int, 4096) * 4) as usize
}

/// Effect of [`gemv_q4_mlx_blocked_with_scalars`].
pub open spec fn gemv_q4_mlx_blocked_step(
    rt: RuntimeState,
    bank: Q4MlxBankAt,
    x: Storage,
    y: Storage,
    shape: QuantShape,
    scalars: Seq<Bind>,
) -> (RuntimeState, Option<Seq<char>>) {
    rt.guarded(
        first(
            bank.problem(rt.id, shape, "gemv_q4_mlx_blocked"@),
            first(
                require_problem(rt.id, x, shape.cols as int, 4, "gemv_q4_mlx_blocked x"@),
                require_problem(rt.id, y, shape.rows as int, 4, "gemv_q4_mlx_blocked y"@),
            ),
        ),
        shape.rows == 0,
        disjoint_problem(
            "gemv_q4_mlx_blocked"@,
            seq![("y", &y)],
            seq![("packed", &bank.packed), ("scales_biases", &bank.scales_biases), ("x", &x)],
        ),
        rt.kernel_groups(
            "gemv_q4_mlx_blocked"@,
            mlx_binds(bank, 0) + seq![at(x, 3), at(y, 4)] + scalars,
            Some((0, x_tile_bytes(shape.cols))),
            ceil_div(shape.rows as int, 16) as usize,
            1,
            |p: Pipeline| 256,
        ),
    )
}

/// [`gemv_q4_mlx_blocked`] with caller-supplied scalar binds: 5 = `rows`,
/// 6 = `cols`, 7 = `group_size`.
pub fn gemv_q4_mlx_blocked_with_scalars(
    rt: &mut GpuRuntime,
    bank: Q4MlxBank,
    x: &GpuBuffer,
    y: &GpuBuffer,
    shape: QuantShape,
    scalars: &[Bind],
) -> (r: Result<(), String>)
    requires
        old(rt).inv(),
    ensures
        final(rt).inv(),
        encodes(
            old(rt)@,
            final(rt)@,
            r,
            gemv_q4_mlx_blocked_step(old(rt)@, bank@, x@, y@, shape, scalars@),
        ),
        r is Ok && shape.rows > 0 && from_slot(scalars@, 5) && in_view(old(rt)@, final(rt)@) ==> blocked_seen(
            old(rt)@,
            final(rt)@,
            bank@,
            x@,
            y@,
            shape,
            scalars@,
        ),
{
    broadcast use law_blocked;

    let x = &x.at();
    let y = &y.at();
    let bank = bank.at();
    let id: u64 = rt.id();
    bank.validate(id, &shape, "gemv_q4_mlx_blocked")?;
    require(id, x, shape.cols as usize, WORD, "gemv_q4_mlx_blocked x")?;
    require(id, y, shape.rows as usize, WORD, "gemv_q4_mlx_blocked y")?;
    if shape.rows == 0 {
        return Ok(());
    }
    let writes = [("y", y)];
    assert(writes@ =~= seq![("y", y)]);
    let reads = [("packed", &bank.packed), ("scales_biases", &bank.scales_biases), ("x", x)];
    assert(reads@ =~= seq![
        ("packed", &bank.packed),
        ("scales_biases", &bank.scales_biases),
        ("x", x),
    ]);
    require_disjoint_writes("gemv_q4_mlx_blocked", &writes, &reads)?;
    let p = rt.pipeline("gemv_q4_mlx_blocked")?;
    let groups: usize = div_ceil(shape.rows as usize, GEMV_BN);
    let tg_mem: usize = min_usize(shape.cols as usize, GEMV_X_TILE) * 4;
    let xy = [buf(x, 3), buf(y, 4)];
    assert(xy@ =~= seq![at(*x, 3), at(*y, 4)]);
    let binds = bind_list(bind_list(&bind_mlx_bank(&bank, 0), &xy).as_slice(), scalars);
    launch_groups(
        rt,
        &p,
        binds.as_slice(),
        Some((0, tg_mem)),
        groups,
        1,
        GEMV_BN * GEMV_LANES,
    )
}

/// `y = W @ x` with MLX Q4 weights in blocks of 16 rows; the bank has to be
/// block-interleaved, not row-major. `x` is staged a tile at a time, so `cols`
/// has no ceiling.
pub fn gemv_q4_mlx_blocked(
    rt: &mut GpuRuntime,
    bank: Q4MlxBank,
    x: &GpuBuffer,
    y: &GpuBuffer,
    shape: QuantShape,
) -> (r: Result<(), String>)
    requires
        old(rt).inv(),
    ensures
        final(rt).inv(),
        encodes(
            old(rt)@,
            final(rt)@,
            r,
            gemv_q4_mlx_blocked_step(old(rt)@, bank@, x@, y@, shape, shape_words(shape, 5)),
        ),
        r is Ok && shape.rows > 0 && in_view(old(rt)@, final(rt)@) ==> ({
                let l = dispatch(old(rt)@, final(rt)@);
                &&& blocked_seen(
                    old(rt)@,
                    final(rt)@,
                    bank@,
                    x@,
                    y@,
                    shape,
                    Seq::empty(),
                )
                &&& l.reads(5, shape.rows)
                &&& l.reads(6, shape.cols)
                &&& l.reads(7, shape.group_size)
            }),
{
    proof {
        reveal_with_fuel(rising, 8);
        reveal(carried);
    }
    let scalars = shape_scalars(&shape, 5);
    gemv_q4_mlx_blocked_with_scalars(rt, bank, x, y, shape, &scalars)
}

/// Kernel of [`gemv_q4_mlx_simd`].
pub open spec fn simd_entry(add: bool, layout: Q4MlxLayout) -> Seq<char> {
    match (add, layout) {
        (false, Q4MlxLayout::RowMajor) => "gemv_q4_mlx_simd"@,
        (false, Q4MlxLayout::Interleaved4) => "gemv_q4_mlx_simd_i4"@,
        (true, Q4MlxLayout::RowMajor) => "gemv_q4_mlx_simd_add"@,
        (true, Q4MlxLayout::Interleaved4) => "gemv_q4_mlx_simd_add_i4"@,
    }
}

fn simd_entry_str(add: bool, layout: Q4MlxLayout) -> (r: &'static str)
    ensures
        r@ == simd_entry(add, layout),
{
    match (add, layout) {
        (false, Q4MlxLayout::RowMajor) => "gemv_q4_mlx_simd",
        (false, Q4MlxLayout::Interleaved4) => "gemv_q4_mlx_simd_i4",
        (true, Q4MlxLayout::RowMajor) => "gemv_q4_mlx_simd_add",
        (true, Q4MlxLayout::Interleaved4) => "gemv_q4_mlx_simd_add_i4",
    }
}

/// The bind of an optional residual.
pub open spec fn resid_binds(resid: Option<Storage>, index: usize) -> Seq<Bind> {
    match resid {
        Some(b) => seq![at(b, index)],
        None => Seq::empty(),
    }
}

fn with_resid(binds: Vec<Bind>, resid: &Option<Storage>, index: usize) -> (r: Vec<Bind>)
    ensures
        r@ == binds@ + resid_binds(*resid, index),
{
    let mut r = binds;
    match resid {
        Some(b) => {
            r.push(buf(b, index));
            assert(r@ =~= binds@ + resid_binds(*resid, index));
        },
        None => {
            assert(r@ =~= binds@ + resid_binds(*resid, index));
        },
    }
    r
}

/// Where an optional residual is refused.
pub open spec fn resid_problem(
    rt: u64,
    resid: Option<Storage>,
    need: int,
    what: Seq<char>,
) -> Option<Seq<char>> {
    match resid {
        Some(b) => require_problem(rt, b, need, 4, what),
        None => None,
    }
}

fn require_resid(rt: u64, resid: &Option<Storage>, need: usize, what: &str) -> (r: Result<
    (),
    String,
>)
    ensures
        reports(r, resid_problem(rt, *resid, need as int, what@)),
{
    match resid {
        Some(b) => require(rt, b, need, WORD, what),
        None => Ok(()),
    }
}

/// Effect of [`gemv_q4_mlx_simd_with_scalars`].
pub open spec fn gemv_q4_mlx_simd_step(
    rt: RuntimeState,
    bank: Q4MlxBankAt,
    x_bf16: Storage,
    y: Storage,
    shape: QuantShape,
    layout: Q4MlxLayout,
    resid: Option<Storage>,
    scalars: Seq<Bind>,
) -> (RuntimeState, Option<Seq<char>>) {
    let entry = simd_entry(resid is Some, layout);
    rt.guarded(
        first(
            bank.problem(rt.id, shape, entry),
            first(
                require_problem(rt.id, x_bf16, shape.cols as int, 2, entry + " x_bf16"@),
                first(
                    require_problem(rt.id, y, shape.rows as int, 4, entry + " y"@),
                    resid_problem(rt.id, resid, shape.rows as int, entry + " resid"@),
                ),
            ),
        ),
        shape.rows == 0,
        disjoint_problem(
            "gemv_q4_mlx_simd"@,
            seq![("y", &y)],
            seq![
                ("packed", &bank.packed),
                ("scales_biases", &bank.scales_biases),
                ("x_bf16", &x_bf16),
            ],
        ),
        rt.kernel_groups(
            entry,
            mlx_binds(bank, 0) + seq![at(x_bf16, 3), at(y, 4)] + scalars + resid_binds(resid, 8),
            None,
            simd_groups(shape.rows),
            1,
            |p: Pipeline| 64,
        ),
    )
}

/// [`gemv_q4_mlx_simd`] with caller-supplied scalar binds: 5 = `rows`,
/// 6 = `cols`, 7 = `group_size`.
pub fn gemv_q4_mlx_simd_with_scalars(
    rt: &mut GpuRuntime,
    bank: Q4MlxBank,
    x_bf16: &GpuBuffer,
    y: &GpuBuffer,
    shape: QuantShape,
    layout: Q4MlxLayout,
    resid: Option<&GpuBuffer>,
    scalars: &[Bind],
) -> (r: Result<(), String>)
    requires
        old(rt).inv(),
    ensures
        final(rt).inv(),
        encodes(
            old(rt)@,
            final(rt)@,
            r,
            gemv_q4_mlx_simd_step(old(rt)@, bank@, x_bf16@, y@, shape, layout, storage_of(resid), scalars@),
        ),
        r is Ok && shape.rows > 0 && beside(scalars@, 5, 8, 8) && in_view(old(rt)@, final(rt)@) ==> simd_seen(
            old(rt)@,
            final(rt)@,
            bank@,
            x_bf16@,
            y@,
            shape,
            layout,
            storage_of(resid),
            scalars@,
        ),
{
    broadcast use law_simd;

    let x_bf16 = &x_bf16.at();
    let y = &y.at();
    let resid = at_opt(resid);
    let bank = bank.at();
    let id: u64 = rt.id();
    let entry = simd_entry_str(resid.is_some(), layout);
    bank.validate(id, &shape, entry)?;
    require(id, x_bf16, shape.cols as usize, HALF, join(entry, " x_bf16").as_str())?;
    require(id, y, shape.rows as usize, WORD, join(entry, " y").as_str())?;
    require_resid(id, &resid, shape.rows as usize, join(entry, " resid").as_str())?;
    if shape.rows == 0 {
        return Ok(());
    }
    let writes = [("y", y)];
    assert(writes@ =~= seq![("y", y)]);
    let reads = [
        ("packed", &bank.packed),
        ("scales_biases", &bank.scales_biases),
        ("x_bf16", x_bf16),
    ];
    assert(reads@ =~= seq![
        ("packed", &bank.packed),
        ("scales_biases", &bank.scales_biases),
        ("x_bf16", x_bf16),
    ]);
    require_disjoint_writes("gemv_q4_mlx_simd", &writes, &reads)?;
    let p = rt.pipeline(entry)?;
    let groups: usize = simd_gemv_threadgroups(shape.rows);
    let xy = [buf(x_bf16, 3), buf(y, 4)];
    assert(xy@ =~= seq![at(*x_bf16, 3), at(*y, 4)]);
    let binds = bind_list(bind_list(&bind_mlx_bank(&bank, 0), &xy).as_slice(), scalars);
    let binds = with_resid(binds, &resid, 8);
    launch_groups(rt, &p, binds.as_slice(), None, groups, 1, SIMD_TPTG)
}

/// `y = W @ x` with MLX Q4 weights and a bf16 activation vector; `resid`, where
/// given, is added elementwise.
pub fn gemv_q4_mlx_simd(
    rt: &mut GpuRuntime,
    bank: Q4MlxBank,
    x_bf16: &GpuBuffer,
    y: &GpuBuffer,
    shape: QuantShape,
    layout: Q4MlxLayout,
    resid: Option<&GpuBuffer>,
) -> (r: Result<(), String>)
    requires
        old(rt).inv(),
    ensures
        final(rt).inv(),
        encodes(
            old(rt)@,
            final(rt)@,
            r,
            gemv_q4_mlx_simd_step(
                old(rt)@,
                bank@,
                x_bf16@,
                y@,
                shape,
                layout,
                storage_of(resid),
                shape_words(shape, 5),
            ),
        ),
        r is Ok && shape.rows > 0 && in_view(old(rt)@, final(rt)@) ==> ({
                let l = dispatch(old(rt)@, final(rt)@);
                &&& simd_seen(
                    old(rt)@,
                    final(rt)@,
                    bank@,
                    x_bf16@,
                    y@,
                    shape,
                    layout,
                    storage_of(resid),
                    Seq::empty(),
                )
                &&& l.reads(5, shape.rows)
                &&& l.reads(6, shape.cols)
                &&& l.reads(7, shape.group_size)
            }),
{
    proof {
        reveal_with_fuel(rising, 8);
        reveal(carried);
    }
    let scalars = shape_scalars(&shape, 5);
    gemv_q4_mlx_simd_with_scalars(rt, bank, x_bf16, y, shape, layout, resid, &scalars)
}

/// Dispatch strategy of the fused gate/up GEMV.
#[derive(Clone, Copy, Debug, PartialEq, Eq, Structural)]
pub enum GateUpDispatch {
    /// Simdgroup-cooperative, bf16 activations.
    Simd(Q4MlxLayout),
    /// Blocked 16-row tiles, f32 activations.
    Blocked,
}

impl GateUpDispatch {
    /// Kernel of the strategy.
    pub open spec fn kernel(self) -> Seq<char> {
        match self {
            GateUpDispatch::Simd(Q4MlxLayout::RowMajor) => "gemv_q4_mlx_simd_gate_up_gelu"@,
            GateUpDispatch::Simd(Q4MlxLayout::Interleaved4) => "gemv_q4_mlx_simd_gate_up_gelu_i4"@,
            GateUpDispatch::Blocked => "gemv_q4_mlx_blocked_gate_up_gelu"@,
        }
    }

    fn entry(self) -> (r: &'static str)
        ensures
            r@ == self.kernel(),
    {
        match self {
            GateUpDispatch::Simd(l) => match l {
                Q4MlxLayout::RowMajor => "gemv_q4_mlx_simd_gate_up_gelu",
                Q4MlxLayout::Interleaved4 => "gemv_q4_mlx_simd_gate_up_gelu_i4",
            },
            GateUpDispatch::Blocked => "gemv_q4_mlx_blocked_gate_up_gelu",
        }
    }

    /// The blocked strategy.
    pub open spec fn is_blocked(self) -> bool {
        self == GateUpDispatch::Blocked
    }
}

/// Effect of [`gemv_q4_mlx_gate_up_gelu_with_scalars`].
pub open spec fn gate_up_step(
    rt: RuntimeState,
    gate: Q4MlxBankAt,
    up: Q4MlxBankAt,
    x: Storage,
    mid: Storage,
    shape: QuantShape,
    dispatch: GateUpDispatch,
    mid_as_bf16: bool,
    scalars: Seq<Bind>,
) -> (RuntimeState, Option<Seq<char>>) {
    let entry = dispatch.kernel();
    let blocked = dispatch.is_blocked();
    rt.guarded(
        first(
            unless(
                !(blocked && shape.cols > 4096),
                entry + ": cols "@ + decimal(shape.cols as nat)
                    + " exceeds the blocked kernel x-cache capacity "@ + decimal(4096),
            ),
            first(
                gate.problem(rt.id, shape, entry + " gate"@),
                first(
                    up.problem(rt.id, shape, entry + " up"@),
                    first(
                        require_problem(
                            rt.id,
                            x,
                            shape.cols as int,
                            if blocked {
                                4
                            } else {
                                2
                            },
                            entry + " x"@,
                        ),
                        if mid_as_bf16 {
                            require_problem(
                                rt.id,
                                mid,
                                shape.rows as int,
                                2,
                                entry + " mid (bf16)"@,
                            )
                        } else {
                            require_problem(rt.id, mid, shape.rows as int, 4, entry + " mid"@)
                        },
                    ),
                ),
            ),
        ),
        shape.rows == 0,
        disjoint_problem(
            "gemv_q4_mlx_gate_up_gelu"@,
            seq![("mid", &mid)],
            seq![
                ("gate_packed", &gate.packed),
                ("gate_scales_biases", &gate.scales_biases),
                ("up_packed", &up.packed),
                ("up_scales_biases", &up.scales_biases),
                ("x", &x),
            ],
        ),
        rt.kernel_groups(
            entry,
            mlx_binds(gate, 0) + mlx_binds(up, 3) + seq![at(x, 6), at(mid, 7)] + scalars,
            if blocked {
                Some((0usize, x_tile_bytes(shape.cols)))
            } else {
                None
            },
            if blocked {
                ceil_div(shape.rows as int, 16) as usize
            } else {
                simd_groups(shape.rows)
            },
            1,
            |p: Pipeline|
                if blocked {
                    256
                } else {
                    64
                },
        ),
    )
}

/// [`gemv_q4_mlx_gate_up_gelu`] with caller-supplied scalar binds: 8 = `rows`,
/// 9 = `cols`, 10 = `group_size`, 11 = `mid_as_bf16`.
pub fn gemv_q4_mlx_gate_up_gelu_with_scalars(
    rt: &mut GpuRuntime,
    gate: Q4MlxBank,
    up: Q4MlxBank,
    x: &GpuBuffer,
    mid: &GpuBuffer,
    shape: QuantShape,
    dispatch: GateUpDispatch,
    mid_as_bf16: bool,
    scalars: &[Bind],
) -> (r: Result<(), String>)
    requires
        old(rt).inv(),
    ensures
        final(rt).inv(),
        encodes(
            old(rt)@,
            final(rt)@,
            r,
            gate_up_step(old(rt)@, gate@, up@, x@, mid@, shape, dispatch, mid_as_bf16, scalars@),
        ),
        r is Ok && shape.rows > 0 && from_slot(scalars@, 8) && in_view(old(rt)@, final(rt)@) ==> gate_up_seen(
            old(rt)@,
            final(rt)@,
            gate@,
            up@,
            x@,
            mid@,
            shape,
            dispatch,
            mid_as_bf16,
            scalars@,
        ),
{
    broadcast use law_gate_up;

    let x = &x.at();
    let mid = &mid.at();
    let gate = gate.at();
    let up = up.at();
    let id: u64 = rt.id();
    let entry = dispatch.entry();
    let blocked = dispatch == GateUpDispatch::Blocked;
    if blocked && shape.cols as usize > GEMV_X_TILE {
        return Err(
            Msg::new(entry).text(": cols ").num(shape.cols as usize).text(
                " exceeds the blocked kernel x-cache capacity ",
            ).num(GEMV_X_TILE).done(),
        );
    }
    gate.validate(id, &shape, join(entry, " gate").as_str())?;
    up.validate(id, &shape, join(entry, " up").as_str())?;
    let x_size: usize = if blocked {
        WORD
    } else {
        HALF
    };
    require(id, x, shape.cols as usize, x_size, join(entry, " x").as_str())?;
    if mid_as_bf16 {
        require(id, mid, shape.rows as usize, HALF, join(entry, " mid (bf16)").as_str())?;
    } else {
        require(id, mid, shape.rows as usize, WORD, join(entry, " mid").as_str())?;
    }
    if shape.rows == 0 {
        return Ok(());
    }
    let writes = [("mid", mid)];
    assert(writes@ =~= seq![("mid", mid)]);
    let reads = [
        ("gate_packed", &gate.packed),
        ("gate_scales_biases", &gate.scales_biases),
        ("up_packed", &up.packed),
        ("up_scales_biases", &up.scales_biases),
        ("x", x),
    ];
    assert(reads@ =~= seq![
        ("gate_packed", &gate.packed),
        ("gate_scales_biases", &gate.scales_biases),
        ("up_packed", &up.packed),
        ("up_scales_biases", &up.scales_biases),
        ("x", x),
    ]);
    require_disjoint_writes("gemv_q4_mlx_gate_up_gelu", &writes, &reads)?;
    let p = rt.pipeline(entry)?;
    let banks = bind_list(&bind_mlx_bank(&gate, 0), &bind_mlx_bank(&up, 3));
    let xm = [buf(x, 6), buf(mid, 7)];
    assert(xm@ =~= seq![at(*x, 6), at(*mid, 7)]);
    let binds = bind_list(bind_list(banks.as_slice(), &xm).as_slice(), scalars);
    if blocked {
        let tg_mem: usize = min_usize(shape.cols as usize, GEMV_X_TILE) * 4;
        launch_groups(
            rt,
            &p,
            binds.as_slice(),
            Some((0, tg_mem)),
            div_ceil(shape.rows as usize, GEMV_BN),
            1,
            GEMV_BN * GEMV_LANES,
        )
    } else {
        launch_groups(
            rt,
            &p,
            binds.as_slice(),
            None,
            simd_gemv_threadgroups(shape.rows),
            1,
            SIMD_TPTG,
        )
    }
}

/// A flag as a word.
pub open spec fn flag(on: bool) -> u32 {
    if on {
        1
    } else {
        0
    }
}

/// A flag as a word.
pub fn flag_word(on: bool) -> (r: u32)
    ensures
        r == flag(on),
{
    if on {
        1
    } else {
        0
    }
}

/// `mid = gelu_pytorch_tanh(W_gate @ x) * (W_up @ x)` in one dispatch. `x` is
/// bf16 for [`GateUpDispatch::Simd`] and f32 for [`GateUpDispatch::Blocked`].
pub fn gemv_q4_mlx_gate_up_gelu(
    rt: &mut GpuRuntime,
    gate: Q4MlxBank,
    up: Q4MlxBank,
    x: &GpuBuffer,
    mid: &GpuBuffer,
    shape: QuantShape,
    dispatch: GateUpDispatch,
    mid_as_bf16: bool,
) -> (r: Result<(), String>)
    requires
        old(rt).inv(),
    ensures
        final(rt).inv(),
        encodes(
            old(rt)@,
            final(rt)@,
            r,
            gate_up_step(
                old(rt)@,
                gate@,
                up@,
                x@,
                mid@,
                shape,
                dispatch,
                mid_as_bf16,
                shape_words(shape, 8) + seq![word_at(flag(mid_as_bf16), 11)],
            ),
        ),
        r is Ok && shape.rows > 0 && in_view(old(rt)@, final(rt)@) ==> ({
                let l = crate::seen::dispatch(old(rt)@, final(rt)@);
                &&& gate_up_seen(
                    old(rt)@,
                    final(rt)@,
                    gate@,
                    up@,
                    x@,
                    mid@,
                    shape,
                    dispatch,
                    mid_as_bf16,
                    Seq::empty(),
                )
                &&& l.reads(8, shape.rows)
                &&& l.reads(9, shape.cols)
                &&& l.reads(10, shape.group_size)
                &&& l.reads(11, bit(mid_as_bf16))
            }),
{
    proof {
        reveal_with_fuel(rising, 8);
        reveal(carried);
    }
    let last = [word(flag_word(mid_as_bf16), 11)];
    assert(last@ =~= seq![word_at(flag(mid_as_bf16), 11)]);
    let scalars = bind_list(&shape_scalars(&shape, 8), &last);
    gemv_q4_mlx_gate_up_gelu_with_scalars(
        rt,
        gate,
        up,
        x,
        mid,
        shape,
        dispatch,
        mid_as_bf16,
        scalars.as_slice(),
    )
}

/// Kernel of [`gemv_q4_mlx_kv`].
pub open spec fn kv_entry(layout: Q4MlxLayout) -> Seq<char> {
    match layout {
        Q4MlxLayout::RowMajor => "gemv_q4_mlx_simd_kv"@,
        Q4MlxLayout::Interleaved4 => "gemv_q4_mlx_simd_kv_i4"@,
    }
}

/// Effect of [`gemv_q4_mlx_kv_with_scalars`]: the grid is K's groups, then as
/// many for V.
pub open spec fn gemv_q4_mlx_kv_step(
    rt: RuntimeState,
    k: Q4MlxBankAt,
    v: Q4MlxBankAt,
    x_bf16: Storage,
    k_out: Storage,
    v_out: Storage,
    shape: QuantShape,
    layout: Q4MlxLayout,
    scalars: Seq<Bind>,
) -> (RuntimeState, Option<Seq<char>>) {
    let entry = kv_entry(layout);
    rt.guarded(
        first(
            k.problem(rt.id, shape, entry + " k"@),
            first(
                v.problem(rt.id, shape, entry + " v"@),
                first(
                    require_problem(rt.id, x_bf16, shape.cols as int, 2, entry + " x_bf16"@),
                    first(
                        require_problem(rt.id, k_out, shape.rows as int, 4, entry + " k_out"@),
                        require_problem(rt.id, v_out, shape.rows as int, 4, entry + " v_out"@),
                    ),
                ),
            ),
        ),
        shape.rows == 0,
        disjoint_problem(
            "gemv_q4_mlx_kv"@,
            seq![("k_out", &k_out), ("v_out", &v_out)],
            seq![
                ("k_packed", &k.packed),
                ("k_scales_biases", &k.scales_biases),
                ("v_packed", &v.packed),
                ("v_scales_biases", &v.scales_biases),
                ("x_bf16", &x_bf16),
            ],
        ),
        rt.kernel_groups(
            entry,
            mlx_binds(k, 0) + mlx_binds(v, 3) + seq![at(x_bf16, 6), at(k_out, 7), at(v_out, 8)]
                + scalars,
            None,
            (simd_groups(shape.rows) * 2) as usize,
            1,
            |p: Pipeline| 64,
        ),
    )
}

/// [`gemv_q4_mlx_kv`] with caller-supplied scalar binds: 9 = `rows`,
/// 10 = `cols`, 11 = `group_size`, 12 = the group at which V begins.
pub fn gemv_q4_mlx_kv_with_scalars(
    rt: &mut GpuRuntime,
    k: Q4MlxBank,
    v: Q4MlxBank,
    x_bf16: &GpuBuffer,
    k_out: &GpuBuffer,
    v_out: &GpuBuffer,
    shape: QuantShape,
    layout: Q4MlxLayout,
    scalars: &[Bind],
) -> (r: Result<(), String>)
    requires
        old(rt).inv(),
    ensures
        final(rt).inv(),
        encodes(
            old(rt)@,
            final(rt)@,
            r,
            gemv_q4_mlx_kv_step(old(rt)@, k@, v@, x_bf16@, k_out@, v_out@, shape, layout, scalars@),
        ),
        r is Ok && shape.rows > 0 && from_slot(scalars@, 9) && in_view(old(rt)@, final(rt)@) ==> kv_seen(
            old(rt)@,
            final(rt)@,
            k@,
            v@,
            x_bf16@,
            k_out@,
            v_out@,
            shape,
            layout,
            scalars@,
        ),
{
    broadcast use law_kv;

    let x_bf16 = &x_bf16.at();
    let k_out = &k_out.at();
    let v_out = &v_out.at();
    let k = k.at();
    let v = v.at();
    let id: u64 = rt.id();
    let entry = match layout {
        Q4MlxLayout::RowMajor => "gemv_q4_mlx_simd_kv",
        Q4MlxLayout::Interleaved4 => "gemv_q4_mlx_simd_kv_i4",
    };
    k.validate(id, &shape, join(entry, " k").as_str())?;
    v.validate(id, &shape, join(entry, " v").as_str())?;
    require(id, x_bf16, shape.cols as usize, HALF, join(entry, " x_bf16").as_str())?;
    require(id, k_out, shape.rows as usize, WORD, join(entry, " k_out").as_str())?;
    require(id, v_out, shape.rows as usize, WORD, join(entry, " v_out").as_str())?;
    if shape.rows == 0 {
        return Ok(());
    }
    let writes = [("k_out", k_out), ("v_out", v_out)];
    assert(writes@ =~= seq![("k_out", k_out), ("v_out", v_out)]);
    let reads = [
        ("k_packed", &k.packed),
        ("k_scales_biases", &k.scales_biases),
        ("v_packed", &v.packed),
        ("v_scales_biases", &v.scales_biases),
        ("x_bf16", x_bf16),
    ];
    assert(reads@ =~= seq![
        ("k_packed", &k.packed),
        ("k_scales_biases", &k.scales_biases),
        ("v_packed", &v.packed),
        ("v_scales_biases", &v.scales_biases),
        ("x_bf16", x_bf16),
    ]);
    require_disjoint_writes("gemv_q4_mlx_kv", &writes, &reads)?;
    let p = rt.pipeline(entry)?;
    let per_matrix: usize = simd_gemv_threadgroups(shape.rows);
    let banks = bind_list(&bind_mlx_bank(&k, 0), &bind_mlx_bank(&v, 3));
    let io = [buf(x_bf16, 6), buf(k_out, 7), buf(v_out, 8)];
    assert(io@ =~= seq![at(*x_bf16, 6), at(*k_out, 7), at(*v_out, 8)]);
    let binds = bind_list(bind_list(banks.as_slice(), &io).as_slice(), scalars);
    launch_groups(rt, &p, binds.as_slice(), None, per_matrix * 2, 1, SIMD_TPTG)
}

/// `k_out = W_k @ x` and `v_out = W_v @ x` in one dispatch, whose grid is
/// partitioned between the two.
pub fn gemv_q4_mlx_kv(
    rt: &mut GpuRuntime,
    k: Q4MlxBank,
    v: Q4MlxBank,
    x_bf16: &GpuBuffer,
    k_out: &GpuBuffer,
    v_out: &GpuBuffer,
    shape: QuantShape,
    layout: Q4MlxLayout,
) -> (r: Result<(), String>)
    requires
        old(rt).inv(),
    ensures
        final(rt).inv(),
        encodes(
            old(rt)@,
            final(rt)@,
            r,
            gemv_q4_mlx_kv_step(
                old(rt)@,
                k@,
                v@,
                x_bf16@,
                k_out@,
                v_out@,
                shape,
                layout,
                shape_words(shape, 9) + seq![word_at(simd_groups(shape.rows) as u32, 12)],
            ),
        ),
        r is Ok && shape.rows > 0 && in_view(old(rt)@, final(rt)@) ==> ({
                let l = dispatch(old(rt)@, final(rt)@);
                &&& kv_seen(
                    old(rt)@,
                    final(rt)@,
                    k@,
                    v@,
                    x_bf16@,
                    k_out@,
                    v_out@,
                    shape,
                    layout,
                    Seq::empty(),
                )
                &&& l.reads(9, shape.rows)
                &&& l.reads(10, shape.cols)
                &&& l.reads(11, shape.group_size)
                &&& l.reads(12, l.word(12))
                &&& l.word(12) * 2 == l.groups.width
            }),
{
    proof {
        reveal_with_fuel(rising, 8);
        reveal(carried);
    }
    let tg_k: u32 = simd_gemv_threadgroups(shape.rows) as u32;
    let last = [word(tg_k, 12)];
    assert(last@ =~= seq![word_at(tg_k, 12)]);
    let scalars = bind_list(&shape_scalars(&shape, 9), &last);
    gemv_q4_mlx_kv_with_scalars(
        rt,
        k,
        v,
        x_bf16,
        k_out,
        v_out,
        shape,
        layout,
        scalars.as_slice(),
    )
}

/// The three destinations of [`gemv_q4_mlx_qkv`].
#[derive(Clone, Copy, Debug)]
pub struct QkvOutputs<'a> {
    /// Query projection.
    pub q_out: &'a GpuBuffer,
    /// Key projection.
    pub k_out: &'a GpuBuffer,
    /// Value projection.
    pub v_out: &'a GpuBuffer,
}

impl View for QkvOutputs<'_> {
    type V = QkvOutputsAt;

    open spec fn view(&self) -> QkvOutputsAt {
        QkvOutputsAt {
            q_out: self.q_out@,
            k_out: self.k_out@,
            v_out: self.v_out@,
        }
    }
}

impl QkvOutputs<'_> {
    /// What the handles name.
    pub fn at(&self) -> (r: QkvOutputsAt)
        ensures
            r == self@,
    {
        QkvOutputsAt {
            q_out: self.q_out.at(),
            k_out: self.k_out.at(),
            v_out: self.v_out.at(),
        }
    }
}

/// What the buffers of [`QkvOutputs`] name.
#[derive(Clone, Copy, Debug, PartialEq, Eq, Structural)]
pub struct QkvOutputsAt {
    /// Query projection, `rows_q` floats.
    pub q_out: Storage,
    /// Key projection, `rows_kv` floats.
    pub k_out: Storage,
    /// Value projection, `rows_kv` floats.
    pub v_out: Storage,
}

/// Kernel of [`gemv_q4_mlx_qkv`].
pub open spec fn qkv_entry(layout: Q4MlxLayout) -> Seq<char> {
    match layout {
        Q4MlxLayout::RowMajor => "gemv_q4_mlx_simd_qkv"@,
        Q4MlxLayout::Interleaved4 => "gemv_q4_mlx_simd_qkv_i4"@,
    }
}

/// Aliasing of the parts that write something: an empty projection neither
/// reads nor writes.
pub open spec fn qkv_clash(
    entry: Seq<char>,
    q: Q4MlxBankAt,
    k: Q4MlxBankAt,
    v: Q4MlxBankAt,
    x_bf16: Storage,
    out: QkvOutputsAt,
    rows_q: u32,
    rows_kv: u32,
) -> Option<Seq<char>> {
    if rows_q == 0 {
        disjoint_problem(
            entry,
            seq![("k_out", &out.k_out), ("v_out", &out.v_out)],
            seq![
                ("k_packed", &k.packed),
                ("k_scales_biases", &k.scales_biases),
                ("v_packed", &v.packed),
                ("v_scales_biases", &v.scales_biases),
                ("x_bf16", &x_bf16),
            ],
        )
    } else if rows_kv == 0 {
        disjoint_problem(
            entry,
            seq![("q_out", &out.q_out)],
            seq![
                ("q_packed", &q.packed),
                ("q_scales_biases", &q.scales_biases),
                ("x_bf16", &x_bf16),
            ],
        )
    } else {
        disjoint_problem(
            entry,
            seq![("q_out", &out.q_out), ("k_out", &out.k_out), ("v_out", &out.v_out)],
            seq![
                ("q_packed", &q.packed),
                ("q_scales_biases", &q.scales_biases),
                ("k_packed", &k.packed),
                ("k_scales_biases", &k.scales_biases),
                ("v_packed", &v.packed),
                ("v_scales_biases", &v.scales_biases),
                ("x_bf16", &x_bf16),
            ],
        )
    }
}

fn require_qkv_disjoint(
    entry: &str,
    q: &Q4MlxBankAt,
    k: &Q4MlxBankAt,
    v: &Q4MlxBankAt,
    x_bf16: &Storage,
    out: &QkvOutputsAt,
    rows_q: u32,
    rows_kv: u32,
) -> (r: Result<(), String>)
    ensures
        reports(r, qkv_clash(entry@, *q, *k, *v, *x_bf16, *out, rows_q, rows_kv)),
{
    if rows_q == 0 {
        let writes = [("k_out", &out.k_out), ("v_out", &out.v_out)];
        assert(writes@ =~= seq![("k_out", &out.k_out), ("v_out", &out.v_out)]);
        let reads = [
            ("k_packed", &k.packed),
            ("k_scales_biases", &k.scales_biases),
            ("v_packed", &v.packed),
            ("v_scales_biases", &v.scales_biases),
            ("x_bf16", x_bf16),
        ];
        assert(reads@ =~= seq![
            ("k_packed", &k.packed),
            ("k_scales_biases", &k.scales_biases),
            ("v_packed", &v.packed),
            ("v_scales_biases", &v.scales_biases),
            ("x_bf16", x_bf16),
        ]);
        require_disjoint_writes(entry, &writes, &reads)
    } else if rows_kv == 0 {
        let writes = [("q_out", &out.q_out)];
        assert(writes@ =~= seq![("q_out", &out.q_out)]);
        let reads = [
            ("q_packed", &q.packed),
            ("q_scales_biases", &q.scales_biases),
            ("x_bf16", x_bf16),
        ];
        assert(reads@ =~= seq![
            ("q_packed", &q.packed),
            ("q_scales_biases", &q.scales_biases),
            ("x_bf16", x_bf16),
        ]);
        require_disjoint_writes(entry, &writes, &reads)
    } else {
        let writes = [("q_out", &out.q_out), ("k_out", &out.k_out), ("v_out", &out.v_out)];
        assert(writes@ =~= seq![
            ("q_out", &out.q_out),
            ("k_out", &out.k_out),
            ("v_out", &out.v_out),
        ]);
        let reads = [
            ("q_packed", &q.packed),
            ("q_scales_biases", &q.scales_biases),
            ("k_packed", &k.packed),
            ("k_scales_biases", &k.scales_biases),
            ("v_packed", &v.packed),
            ("v_scales_biases", &v.scales_biases),
            ("x_bf16", x_bf16),
        ];
        assert(reads@ =~= seq![
            ("q_packed", &q.packed),
            ("q_scales_biases", &q.scales_biases),
            ("k_packed", &k.packed),
            ("k_scales_biases", &k.scales_biases),
            ("v_packed", &v.packed),
            ("v_scales_biases", &v.scales_biases),
            ("x_bf16", x_bf16),
        ]);
        require_disjoint_writes(entry, &writes, &reads)
    }
}

/// Effect of [`gemv_q4_mlx_qkv_with_scalars`]. These kernels take two slots per
/// bank.
pub open spec fn gemv_q4_mlx_qkv_step(
    rt: RuntimeState,
    q: Q4MlxBankAt,
    k: Q4MlxBankAt,
    v: Q4MlxBankAt,
    x_bf16: Storage,
    out: QkvOutputsAt,
    rows_q: u32,
    rows_kv: u32,
    cols: u32,
    group_size: u32,
    layout: Q4MlxLayout,
    scalars: Seq<Bind>,
) -> (RuntimeState, Option<Seq<char>>) {
    let entry = qkv_entry(layout);
    let q_shape = QuantShape { rows: rows_q, cols, group_size };
    let kv_shape = QuantShape { rows: rows_kv, cols, group_size };
    rt.guarded(
        first(
            q.problem(rt.id, q_shape, entry + " q"@),
            first(
                k.problem(rt.id, kv_shape, entry + " k"@),
                first(
                    v.problem(rt.id, kv_shape, entry + " v"@),
                    first(
                        require_problem(rt.id, x_bf16, cols as int, 2, entry + " x_bf16"@),
                        first(
                            require_problem(rt.id, out.q_out, rows_q as int, 4, entry + " q_out"@),
                            first(
                                require_problem(
                                    rt.id,
                                    out.k_out,
                                    rows_kv as int,
                                    4,
                                    entry + " k_out"@,
                                ),
                                require_problem(
                                    rt.id,
                                    out.v_out,
                                    rows_kv as int,
                                    4,
                                    entry + " v_out"@,
                                ),
                            ),
                        ),
                    ),
                ),
            ),
        ),
        rows_q == 0 && rows_kv == 0,
        qkv_clash(entry, q, k, v, x_bf16, out, rows_q, rows_kv),
        rt.kernel_groups(
            entry,
            seq![
                at(q.packed, 0),
                at(q.scales_biases, 1),
                at(k.packed, 2),
                at(k.scales_biases, 3),
                at(v.packed, 4),
                at(v.scales_biases, 5),
                at(x_bf16, 6),
                at(out.q_out, 7),
                at(out.k_out, 8),
                at(out.v_out, 9),
            ] + scalars,
            None,
            (simd_groups(rows_q) + 2 * simd_groups(rows_kv)) as usize,
            1,
            |p: Pipeline| 64,
        ),
    )
}

/// [`gemv_q4_mlx_qkv`] with caller-supplied scalar binds: 10 = `rows_q`,
/// 11 = `rows_kv`, 12 = `cols`, 13 = `group_size`, 14 and 15 = the group counts
/// of Q and of K.
pub fn gemv_q4_mlx_qkv_with_scalars(
    rt: &mut GpuRuntime,
    q: Q4MlxBank,
    k: Q4MlxBank,
    v: Q4MlxBank,
    x_bf16: &GpuBuffer,
    out: QkvOutputs,
    rows_q: u32,
    rows_kv: u32,
    cols: u32,
    group_size: u32,
    layout: Q4MlxLayout,
    scalars: &[Bind],
) -> (r: Result<(), String>)
    requires
        old(rt).inv(),
    ensures
        final(rt).inv(),
        encodes(
            old(rt)@,
            final(rt)@,
            r,
            gemv_q4_mlx_qkv_step(
                old(rt)@,
                q@,
                k@,
                v@,
                x_bf16@,
                out@,
                rows_q,
                rows_kv,
                cols,
                group_size,
                layout,
                scalars@,
            ),
        ),
        r is Ok && (rows_q > 0 || rows_kv > 0) && from_slot(scalars@, 10) && in_view(old(rt)@, final(rt)@) ==> qkv_seen(
            old(rt)@,
            final(rt)@,
            q@,
            k@,
            v@,
            x_bf16@,
            out@,
            rows_q,
            rows_kv,
            cols,
            group_size,
            layout,
            scalars@,
        ),
{
    broadcast use law_qkv;

    let x_bf16 = &x_bf16.at();
    let q = q.at();
    let k = k.at();
    let v = v.at();
    let out = out.at();
    let id: u64 = rt.id();
    let entry = match layout {
        Q4MlxLayout::RowMajor => "gemv_q4_mlx_simd_qkv",
        Q4MlxLayout::Interleaved4 => "gemv_q4_mlx_simd_qkv_i4",
    };
    let q_shape = QuantShape { rows: rows_q, cols, group_size };
    let kv_shape = QuantShape { rows: rows_kv, cols, group_size };
    q.validate(id, &q_shape, join(entry, " q").as_str())?;
    k.validate(id, &kv_shape, join(entry, " k").as_str())?;
    v.validate(id, &kv_shape, join(entry, " v").as_str())?;
    require(id, x_bf16, cols as usize, HALF, join(entry, " x_bf16").as_str())?;
    require(id, &out.q_out, rows_q as usize, WORD, join(entry, " q_out").as_str())?;
    require(id, &out.k_out, rows_kv as usize, WORD, join(entry, " k_out").as_str())?;
    require(id, &out.v_out, rows_kv as usize, WORD, join(entry, " v_out").as_str())?;
    if rows_q == 0 && rows_kv == 0 {
        return Ok(());
    }
    require_qkv_disjoint(entry, &q, &k, &v, x_bf16, &out, rows_q, rows_kv)?;
    let p = rt.pipeline(entry)?;
    let groups: usize = simd_gemv_threadgroups(rows_q) + 2 * simd_gemv_threadgroups(rows_kv);
    let head = [
        buf(&q.packed, 0),
        buf(&q.scales_biases, 1),
        buf(&k.packed, 2),
        buf(&k.scales_biases, 3),
        buf(&v.packed, 4),
        buf(&v.scales_biases, 5),
        buf(x_bf16, 6),
        buf(&out.q_out, 7),
        buf(&out.k_out, 8),
        buf(&out.v_out, 9),
    ];
    assert(head@ =~= seq![
        at(q.packed, 0),
        at(q.scales_biases, 1),
        at(k.packed, 2),
        at(k.scales_biases, 3),
        at(v.packed, 4),
        at(v.scales_biases, 5),
        at(*x_bf16, 6),
        at(out.q_out, 7),
        at(out.k_out, 8),
        at(out.v_out, 9),
    ]);
    let binds = bind_list(&head, scalars);
    launch_groups(rt, &p, binds.as_slice(), None, groups, 1, SIMD_TPTG)
}

/// `q_out`, `k_out` and `v_out` from one activation in one dispatch, with a
/// three-way grid partition. Q may have another row count than K and V.
#[verifier::spinoff_prover]
#[verifier::rlimit(60)]
pub fn gemv_q4_mlx_qkv(
    rt: &mut GpuRuntime,
    q: Q4MlxBank,
    k: Q4MlxBank,
    v: Q4MlxBank,
    x_bf16: &GpuBuffer,
    out: QkvOutputs,
    rows_q: u32,
    rows_kv: u32,
    cols: u32,
    group_size: u32,
    layout: Q4MlxLayout,
) -> (r: Result<(), String>)
    requires
        old(rt).inv(),
    ensures
        final(rt).inv(),
        encodes(
            old(rt)@,
            final(rt)@,
            r,
            gemv_q4_mlx_qkv_step(
                old(rt)@,
                q@,
                k@,
                v@,
                x_bf16@,
                out@,
                rows_q,
                rows_kv,
                cols,
                group_size,
                layout,
                seq![
                    word_at(rows_q, 10),
                    word_at(rows_kv, 11),
                    word_at(cols, 12),
                    word_at(group_size, 13),
                    word_at(simd_groups(rows_q) as u32, 14),
                    word_at(simd_groups(rows_kv) as u32, 15),
                ],
            ),
        ),
        r is Ok && (rows_q > 0 || rows_kv > 0) && in_view(old(rt)@, final(rt)@) ==> ({
                let l = dispatch(old(rt)@, final(rt)@);
                &&& qkv_seen(
                    old(rt)@,
                    final(rt)@,
                    q@,
                    k@,
                    v@,
                    x_bf16@,
                    out@,
                    rows_q,
                    rows_kv,
                    cols,
                    group_size,
                    layout,
                    Seq::empty(),
                )
                &&& l.reads(10, rows_q)
                &&& l.reads(11, rows_kv)
                &&& l.reads(12, cols)
                &&& l.reads(13, group_size)
                &&& l.reads(14, l.word(14))
                &&& l.reads(15, l.word(15))
                &&& rows_q <= l.word(14) * 8 && (l.word(14) - 1) * 8 < rows_q
                &&& rows_kv <= l.word(15) * 8 && (l.word(15) - 1) * 8 < rows_kv
            }),
{
    proof {
        reveal_with_fuel(rising, 8);
        reveal(carried);
        crate::sizes::lemma_ceil_div_covers(rows_q as int, 8);
        crate::sizes::lemma_ceil_div_covers(rows_kv as int, 8);
    }
    let tg_q: u32 = simd_gemv_threadgroups(rows_q) as u32;
    let tg_k: u32 = simd_gemv_threadgroups(rows_kv) as u32;
    let scalars = [
        word(rows_q, 10),
        word(rows_kv, 11),
        word(cols, 12),
        word(group_size, 13),
        word(tg_q, 14),
        word(tg_k, 15),
    ];
    assert(scalars@ =~= seq![
        word_at(rows_q, 10),
        word_at(rows_kv, 11),
        word_at(cols, 12),
        word_at(group_size, 13),
        word_at(tg_q, 14),
        word_at(tg_k, 15),
    ]);
    gemv_q4_mlx_qkv_with_scalars(
        rt,
        q,
        k,
        v,
        x_bf16,
        out,
        rows_q,
        rows_kv,
        cols,
        group_size,
        layout,
        &scalars,
    )
}

/// Most activation rows the MLX Q4 GEMM kernels carry.
pub const GEMM_Q4_MLX_MAX_M: u32 = 8;

/// Kernel of [`gemm_q4_mlx`].
pub open spec fn gemm_q4_entry(add: bool, layout: Q4MlxLayout) -> Seq<char> {
    match (add, layout) {
        (false, Q4MlxLayout::RowMajor) => "gemm_q4_mlx_simd"@,
        (false, Q4MlxLayout::Interleaved4) => "gemm_q4_mlx_simd_i4"@,
        (true, Q4MlxLayout::RowMajor) => "gemm_q4_mlx_simd_add"@,
        (true, Q4MlxLayout::Interleaved4) => "gemm_q4_mlx_simd_add_i4"@,
    }
}

fn gemm_q4_entry_str(add: bool, layout: Q4MlxLayout) -> (r: &'static str)
    ensures
        r@ == gemm_q4_entry(add, layout),
{
    match (add, layout) {
        (false, Q4MlxLayout::RowMajor) => "gemm_q4_mlx_simd",
        (false, Q4MlxLayout::Interleaved4) => "gemm_q4_mlx_simd_i4",
        (true, Q4MlxLayout::RowMajor) => "gemm_q4_mlx_simd_add",
        (true, Q4MlxLayout::Interleaved4) => "gemm_q4_mlx_simd_add_i4",
    }
}

/// Effect of [`gemm_q4_mlx_with_scalars`]. Nothing is checked for `m == 0`.
pub open spec fn gemm_q4_mlx_step(
    rt: RuntimeState,
    bank: Q4MlxBankAt,
    x_bf16: Storage,
    y: Storage,
    shape: QuantShape,
    m: u32,
    layout: Q4MlxLayout,
    resid: Option<Storage>,
    scalars: Seq<Bind>,
) -> (RuntimeState, Option<Seq<char>>) {
    let entry = gemm_q4_entry(resid is Some, layout);
    if m == 0 {
        (rt, None)
    } else {
        rt.guarded(
            first(
                unless(
                    m <= 8,
                    entry + ": M = "@ + decimal(m as nat) + " exceeds GEMM_MAX_M = "@ + decimal(8)
                        + "; the kernel clamps to that internally, so rows "@ + decimal(8) + ".."@
                        + decimal(m as nat) + " would be left unwritten rather than computed"@,
                ),
                first(
                    bank.problem(rt.id, shape, entry),
                    first(
                        unless(m * shape.rows <= usize::MAX, overflow_message(entry)),
                        first(
                            unless(m * shape.cols <= usize::MAX, overflow_message(entry)),
                            first(
                                require_problem(
                                    rt.id,
                                    x_bf16,
                                    m * shape.cols,
                                    2,
                                    entry + " x_bf16"@,
                                ),
                                first(
                                    require_problem(rt.id, y, m * shape.rows, 4, entry + " y"@),
                                    resid_problem(
                                        rt.id,
                                        resid,
                                        m * shape.rows,
                                        entry + " resid"@,
                                    ),
                                ),
                            ),
                        ),
                    ),
                ),
            ),
            shape.rows == 0,
            disjoint_problem(
                "gemm_q4_mlx"@,
                seq![("y", &y)],
                seq![
                    ("packed", &bank.packed),
                    ("scales_biases", &bank.scales_biases),
                    ("x_bf16", &x_bf16),
                ],
            ),
            rt.kernel_groups(
                entry,
                mlx_binds(bank, 0) + seq![at(x_bf16, 3), at(y, 4)] + scalars + resid_binds(
                    resid,
                    9,
                ),
                None,
                simd_groups(shape.rows),
                1,
                |p: Pipeline| 64,
            ),
        )
    }
}

/// [`gemm_q4_mlx`] with caller-supplied scalar binds: 5 = `rows`, 6 = `cols`,
/// 7 = `group_size`, 8 = `m`.
pub fn gemm_q4_mlx_with_scalars(
    rt: &mut GpuRuntime,
    bank: Q4MlxBank,
    x_bf16: &GpuBuffer,
    y: &GpuBuffer,
    shape: QuantShape,
    m: u32,
    layout: Q4MlxLayout,
    resid: Option<&GpuBuffer>,
    scalars: &[Bind],
) -> (r: Result<(), String>)
    requires
        old(rt).inv(),
    ensures
        final(rt).inv(),
        encodes(
            old(rt)@,
            final(rt)@,
            r,
            gemm_q4_mlx_step(old(rt)@, bank@, x_bf16@, y@, shape, m, layout, storage_of(resid), scalars@),
        ),
        r is Ok && m > 0 && shape.rows > 0 && beside(scalars@, 5, 9, 9) && in_view(old(rt)@, final(rt)@) ==> batch_simd_seen(
            old(rt)@,
            final(rt)@,
            bank@,
            x_bf16@,
            y@,
            shape,
            m,
            layout,
            storage_of(resid),
            scalars@,
        ),
{
    broadcast use law_batch_simd;

    let x_bf16 = &x_bf16.at();
    let y = &y.at();
    let resid = at_opt(resid);
    let bank = bank.at();
    let id: u64 = rt.id();
    let entry = gemm_q4_entry_str(resid.is_some(), layout);
    if m == 0 {
        return Ok(());
    }
    if m > GEMM_Q4_MLX_MAX_M {
        return Err(
            Msg::new(entry).text(": M = ").num(m as usize).text(" exceeds GEMM_MAX_M = ").num(
                8,
            ).text("; the kernel clamps to that internally, so rows ").num(8).text("..").num(
                m as usize,
            ).text(" would be left unwritten rather than computed").done(),
        );
    }
    bank.validate(id, &shape, entry)?;
    let out_elems: usize = elems(m, shape.rows, entry)?;
    let in_elems: usize = elems(m, shape.cols, entry)?;
    require(id, x_bf16, in_elems, HALF, join(entry, " x_bf16").as_str())?;
    require(id, y, out_elems, WORD, join(entry, " y").as_str())?;
    require_resid(id, &resid, out_elems, join(entry, " resid").as_str())?;
    if shape.rows == 0 {
        return Ok(());
    }
    let writes = [("y", y)];
    assert(writes@ =~= seq![("y", y)]);
    let reads = [
        ("packed", &bank.packed),
        ("scales_biases", &bank.scales_biases),
        ("x_bf16", x_bf16),
    ];
    assert(reads@ =~= seq![
        ("packed", &bank.packed),
        ("scales_biases", &bank.scales_biases),
        ("x_bf16", x_bf16),
    ]);
    require_disjoint_writes("gemm_q4_mlx", &writes, &reads)?;
    let p = rt.pipeline(entry)?;
    let groups: usize = simd_gemv_threadgroups(shape.rows);
    let xy = [buf(x_bf16, 3), buf(y, 4)];
    assert(xy@ =~= seq![at(*x_bf16, 3), at(*y, 4)]);
    let binds = bind_list(bind_list(&bind_mlx_bank(&bank, 0), &xy).as_slice(), scalars);
    let binds = with_resid(binds, &resid, 9);
    launch_groups(rt, &p, binds.as_slice(), None, groups, 1, SIMD_TPTG)
}

/// `Y[M, rows] = X[M, cols] @ W[rows, cols]^T` with MLX Q4 weights, for at most
/// [`GEMM_Q4_MLX_MAX_M`] activation rows.
pub fn gemm_q4_mlx(
    rt: &mut GpuRuntime,
    bank: Q4MlxBank,
    x_bf16: &GpuBuffer,
    y: &GpuBuffer,
    shape: QuantShape,
    m: u32,
    layout: Q4MlxLayout,
    resid: Option<&GpuBuffer>,
) -> (r: Result<(), String>)
    requires
        old(rt).inv(),
    ensures
        final(rt).inv(),
        encodes(
            old(rt)@,
            final(rt)@,
            r,
            gemm_q4_mlx_step(
                old(rt)@,
                bank@,
                x_bf16@,
                y@,
                shape,
                m,
                layout,
                storage_of(resid),
                shape_words(shape, 5) + seq![word_at(m, 8)],
            ),
        ),
        r is Ok && m > 0 && shape.rows > 0 && in_view(old(rt)@, final(rt)@) ==> ({
                let l = dispatch(old(rt)@, final(rt)@);
                &&& batch_simd_seen(
                    old(rt)@,
                    final(rt)@,
                    bank@,
                    x_bf16@,
                    y@,
                    shape,
                    m,
                    layout,
                    storage_of(resid),
                    Seq::empty(),
                )
                &&& l.reads(5, shape.rows)
                &&& l.reads(6, shape.cols)
                &&& l.reads(7, shape.group_size)
                &&& l.reads(8, m)
            }),
{
    proof {
        reveal_with_fuel(rising, 8);
        reveal(carried);
    }
    let last = [word(m, 8)];
    assert(last@ =~= seq![word_at(m, 8)]);
    let scalars = bind_list(&shape_scalars(&shape, 5), &last);
    gemm_q4_mlx_with_scalars(rt, bank, x_bf16, y, shape, m, layout, resid, scalars.as_slice())
}

/// Longest reduction whose int32 accumulation is exact at full int8 range.
pub const MAX_K_EXACT: u32 = 131072;

/// What refuses the shape and scale of an int8 GEMM.
pub open spec fn i8_scalar_problem(m: u32, n: u32, k: u32, a_scale: u32) -> Option<Seq<char>> {
    first(
        unless(
            m != 0 && n != 0 && k != 0,
            "gemm_i8_dequant: m, n and k must be non-zero"@,
        ),
        first(
            unless(
                finite(a_scale),
                "gemm_i8_dequant: a_scale must be finite, got "@ + nonfinite_text(a_scale),
            ),
            unless(
                k <= 131072,
                "gemm_i8_dequant: k = "@ + decimal(k as nat) + " exceeds "@ + decimal(131072)
                    + ", past which an int32 accumulator can overflow at full int8 range and the result wraps silently rather than saturating"@,
            ),
        ),
    )
}

/// Aliasing of an int8 GEMM.
pub open spec fn i8_clash(
    a: Storage,
    b: Storage,
    c: Storage,
    b_scale: Option<Storage>,
) -> Option<Seq<char>> {
    match b_scale {
        Some(sc) => disjoint_problem(
            "gemm_i8_dequant"@,
            seq![("c", &c)],
            seq![("a", &a), ("b", &b), ("b_scale", &sc)],
        ),
        None => disjoint_problem(
            "gemm_i8_dequant"@,
            seq![("c", &c)],
            seq![("a", &a), ("b", &b)],
        ),
    }
}

/// Binds of an int8 GEMM. Without a column scale the slot is filled with `c`,
/// which the kernel then leaves unread.
pub open spec fn i8_binds(
    a: Storage,
    b: Storage,
    c: Storage,
    m: u32,
    n: u32,
    k: u32,
    a_scale: u32,
    b_scale: Option<Storage>,
) -> Seq<Bind> {
    seq![
        at(a, 0),
        at(b, 1),
        at(c, 2),
        word_at(m, 3),
        word_at(n, 4),
        word_at(k, 5),
        word_at(ceil_div(n as int, 64) as u32, 6),
        word_at(ceil_div(m as int, 128) as u32, 7),
        at(
            match b_scale {
                Some(sc) => sc,
                None => c,
            },
            8,
        ),
        float_at(a_scale, 9),
        word_at(flag(b_scale is Some), 10),
    ]
}

/// Effect of [`gemm_i8_dequant`].
pub open spec fn gemm_i8_dequant_step(
    rt: RuntimeState,
    a: Storage,
    b: Storage,
    c: Storage,
    m: u32,
    n: u32,
    k: u32,
    a_scale: u32,
    b_scale: Option<Storage>,
) -> (RuntimeState, Option<Seq<char>>) {
    let what = "gemm_i8_dequant"@;
    let tiles_n = ceil_div(n as int, 64);
    let tiles_m = ceil_div(m as int, 128);
    rt.guarded(
        first(
            i8_scalar_problem(m, n, k, a_scale),
            first(
                unless(m * k <= usize::MAX, overflow_message(what)),
                first(
                    require_problem(rt.id, a, m * k, 1, "gemm_i8_dequant a"@),
                    first(
                        unless(k * n <= usize::MAX, overflow_message(what)),
                        first(
                            require_problem(rt.id, b, k * n, 1, "gemm_i8_dequant b"@),
                            first(
                                unless(m * n <= usize::MAX, overflow_message(what)),
                                first(
                                    require_problem(rt.id, c, m * n, 4, "gemm_i8_dequant c"@),
                                    resid_problem(
                                        rt.id,
                                        b_scale,
                                        n as int,
                                        "gemm_i8_dequant b_scale"@,
                                    ),
                                ),
                            ),
                        ),
                    ),
                ),
            ),
        ),
        false,
        i8_clash(a, b, c, b_scale),
        rt.kernel_groups(
            "matmul2d_tensorops_i8_f32"@,
            i8_binds(a, b, c, m, n, k, a_scale, b_scale),
            None,
            (tiles_n * tiles_m) as usize,
            1,
            |p: Pipeline| 128,
        ),
    )
}

/// `C[m,n] = (A_i8 @ B_i8) * a_scale * b_scale[n]`, dequantized in registers.
/// The int32 accumulation is exact for every admitted `k`; `a_scale` is a
/// float's bit pattern, `b_scale` an optional float per column.
pub fn gemm_i8_dequant(
    rt: &mut GpuRuntime,
    a: &GpuBuffer,
    b: &GpuBuffer,
    c: &GpuBuffer,
    m: u32,
    n: u32,
    k: u32,
    a_scale: u32,
    b_scale: Option<&GpuBuffer>,
) -> (r: Result<(), String>)
    requires
        old(rt).inv(),
    ensures
        final(rt).inv(),
        encodes(
            old(rt)@,
            final(rt)@,
            r,
            gemm_i8_dequant_step(old(rt)@, a@, b@, c@, m, n, k, a_scale, storage_of(b_scale)),
        ),
        r is Ok && in_view(old(rt)@, final(rt)@) ==> i8_seen(
            old(rt)@,
            final(rt)@,
            a@,
            b@,
            c@,
            m,
            n,
            k,
            a_scale,
            storage_of(b_scale),
        ),
{
    broadcast use law_i8;

    let a = &a.at();
    let b = &b.at();
    let c = &c.at();
    let b_scale = at_opt(b_scale);
    let id: u64 = rt.id();
    if m == 0 || n == 0 || k == 0 {
        return Err(owned("gemm_i8_dequant: m, n and k must be non-zero"));
    }
    if !is_finite(a_scale) {
        return Err(
            join("gemm_i8_dequant: a_scale must be finite, got ", nonfinite_str(a_scale)),
        );
    }
    if k > MAX_K_EXACT {
        return Err(
            Msg::new("gemm_i8_dequant: k = ").num(k as usize).text(" exceeds ").num(131072).text(
                ", past which an int32 accumulator can overflow at full int8 range and the result wraps silently rather than saturating",
            ).done(),
        );
    }
    let mk: usize = elems(m, k, "gemm_i8_dequant")?;
    require(id, a, mk, BYTE, "gemm_i8_dequant a")?;
    let kn: usize = elems(k, n, "gemm_i8_dequant")?;
    require(id, b, kn, BYTE, "gemm_i8_dequant b")?;
    let mn: usize = elems(m, n, "gemm_i8_dequant")?;
    require(id, c, mn, WORD, "gemm_i8_dequant c")?;
    require_resid(id, &b_scale, n as usize, "gemm_i8_dequant b_scale")?;
    let writes = [("c", c)];
    assert(writes@ =~= seq![("c", c)]);
    let (scale_buf, has_scale): (Storage, u32) = match &b_scale {
        Some(sc) => {
            let reads = [("a", a), ("b", b), ("b_scale", sc)];
            assert(reads@ =~= seq![("a", a), ("b", b), ("b_scale", sc)]);
            require_disjoint_writes("gemm_i8_dequant", &writes, &reads)?;
            (*sc, 1)
        },
        None => {
            let reads = [("a", a), ("b", b)];
            assert(reads@ =~= seq![("a", a), ("b", b)]);
            require_disjoint_writes("gemm_i8_dequant", &writes, &reads)?;
            (*c, 0)
        },
    };
    let p = rt.pipeline("matmul2d_tensorops_i8_f32")?;
    let tiles_n: usize = div_ceil(n as usize, 64);
    let tiles_m: usize = div_ceil(m as usize, 128);
    assert(tiles_n * tiles_m <= m * n) by (nonlinear_arith)
        requires
            0 <= tiles_n <= n,
            0 <= tiles_m <= m,
    ;
    let groups: usize = tiles_n * tiles_m;
    let binds = [
        buf(a, 0),
        buf(b, 1),
        buf(c, 2),
        word(m, 3),
        word(n, 4),
        word(k, 5),
        word(tiles_n as u32, 6),
        word(tiles_m as u32, 7),
        buf(&scale_buf, 8),
        float(a_scale, 9),
        word(has_scale, 10),
    ];
    assert(binds@ =~= i8_binds(*a, *b, *c, m, n, k, a_scale, b_scale));
    launch_groups(rt, &p, &binds, None, groups, 1, 128)
}

/// The int8 GEMM's tiles cover the whole output.
pub proof fn law_i8_tiles_cover_output(m: u32, n: u32)
    ensures
        ceil_div(n as int, 64) * 64 >= n,
        ceil_div(m as int, 128) * 128 >= m,
{
    crate::sizes::lemma_ceil_div_covers(n as int, 64);
    crate::sizes::lemma_ceil_div_covers(m as int, 128);
}

/// A reduction of admitted length over full-range int8 products stays inside an
/// int32 accumulator.
pub proof fn law_i8_accumulation_is_exact(k: u32, a: int, b: int)
    requires
        k <= MAX_K_EXACT,
        -127 <= a <= 127,
        -127 <= b <= 127,
    ensures
        -0x8000_0000 <= k * (a * b) <= 0x7fff_ffff,
{
    assert(-16129 <= a * b <= 16129) by (nonlinear_arith)
        requires
            -127 <= a <= 127,
            -127 <= b <= 127,
    ;
    assert(-131072 * 16129 <= k * (a * b) <= 131072 * 16129) by (nonlinear_arith)
        requires
            0 <= k <= 131072,
            -16129 <= a * b <= 16129,
    ;
}

} // verus!
