//! What the quantized multiplication kernels get from an accepted call: each bank
//! of weights beside the output that it is multiplied into, and all of them large
//! enough for the rows and columns.

use vstd::prelude::*;

use crate::device::Pipeline;
use crate::dispatch::Bind;
use crate::nn::attention_laws::bit;
use crate::nn::check::{at, word_at};
use crate::nn::gemv::{
    embed_lookup_q4_mlx_step, embed_lookup_q4_step, gate_up_step, gemm_i8_dequant_step,
    gemm_q4_mlx_step, gemv_q4_mlx_blocked_step, gemv_q4_mlx_kv_step, gemv_q4_mlx_qkv_step,
    gemv_q4_mlx_simd_step, gemv_q4_mlx_step, gemv_q4_step, gemv_q8_step, i8_binds, mlx_binds,
    q4_entry, qkv_clash, resid_binds, row_kernel_lanes, x_cache_bytes, x_tile_bytes,
    GateUpDispatch, Q4MlxLayout, Q4MlxRowVariant, QkvOutputsAt,
};
use crate::nn::laws::{
    lemma_apart, lemma_headed_1d, lemma_headed_groups, lemma_kernel_groups, lemma_room,
};
use crate::nn::quant::{simd_groups, Q4BankAt, Q4MlxBankAt, QuantShape};
use crate::seen::{
    beside, carried, carries, covers, dispatch, from_slot, has_room, in_view, lemma_carried,
    lemma_carried_beside, lemma_carried_joined, lemma_named_launch, ran, rising, Launch,
};
use crate::sizes::{ceil_div, least, most};
use crate::state::RuntimeState;
use crate::tensor::Storage;

verus! {

// ------------------------------------------------------------------ banks ---

/// The kernel gets a bank of packed weights from `slot` on: the weights, and the
/// scales and biases twice.
pub open spec fn gets_bank(l: Launch, slot: int, bank: Q4MlxBankAt) -> bool {
    &&& l.gets(slot, bank.packed, 0)
    &&& l.gets(slot + 1, bank.scales_biases, 0)
    &&& l.gets(slot + 2, bank.scales_biases, 0)
}

/// A bank holds half a byte a weight and four bytes a group, in whole groups.
pub open spec fn bank_room(rt: RuntimeState, bank: Q4MlxBankAt, shape: QuantShape) -> bool {
    let g = shape.group_size;
    &&& g == 32 || g == 64 || g == 128 || g == 256 || g == 512
    &&& shape.cols % g == 0
    &&& bank.packed.runtime == rt.id
    &&& shape.rows * shape.cols <= bank.packed.nbytes * 2
    &&& has_room(rt, bank.scales_biases, shape.rows * (shape.cols / g) * 4)
}

/// A bank with separate scales and zero points.
pub open spec fn table_room(rt: RuntimeState, bank: Q4BankAt, shape: QuantShape) -> bool {
    let g = shape.group_size;
    &&& g > 0
    &&& g % 8 == 0
    &&& shape.cols % g == 0
    &&& bank.packed.runtime == rt.id
    &&& shape.rows * shape.cols <= bank.packed.nbytes * 2
    &&& has_room(rt, bank.scales, shape.rows * (shape.cols / g) * 4)
    &&& has_room(rt, bank.zeros, shape.rows * (shape.cols / g) * 4)
}

proof fn lemma_group_sizes(g: u32)
    requires
        g != 0,
        crate::nn::quant::mlx_group_size(g),
    ensures
        g == 32 || g == 64 || g == 128 || g == 256 || g == 512,
{
    assert(g != 0 && g % 32 == 0 && 512u32 % g == 0 ==> g == 32 || g == 64 || g == 128 || g == 256
        || g == 512) by (bit_vector);
}

proof fn lemma_bank(rt: RuntimeState, bank: Q4MlxBankAt, shape: QuantShape, what: Seq<char>)
    requires
        bank.problem(rt.id, shape, what) is None,
    ensures
        bank_room(rt, bank, shape),
{
    lemma_group_sizes(shape.group_size);
    let n = shape.rows * shape.cols;
    lemma_room(rt, bank.packed, ceil_div(n, 2), 1, what + " packed"@);
    lemma_room(
        rt,
        bank.scales_biases,
        shape.group_count(),
        4,
        what + " scales_biases (bfloat2 per group)"@,
    );
    assert(n >= 0) by (nonlinear_arith)
        requires
            n == shape.rows * shape.cols,
    ;
    crate::sizes::lemma_ceil_div_covers(n, 2);
}

proof fn lemma_table(rt: RuntimeState, bank: Q4BankAt, shape: QuantShape, what: Seq<char>)
    requires
        bank.problem(rt.id, shape, what) is None,
    ensures
        table_room(rt, bank, shape),
{
    let n = shape.rows * shape.cols;
    lemma_room(rt, bank.packed, ceil_div(n, 2), 1, what + " packed"@);
    lemma_room(rt, bank.scales, shape.group_count(), 4, what + " scales"@);
    lemma_room(rt, bank.zeros, shape.group_count(), 4, what + " zeros"@);
    assert(n >= 0) by (nonlinear_arith)
        requires
            n == shape.rows * shape.cols,
    ;
    crate::sizes::lemma_ceil_div_covers(n, 2);
}

/// Groups of 64 lanes, eight rows each.
pub open spec fn eight_rows_each(l: Launch, rows: int) -> bool {
    &&& l.flat()
    &&& l.threads.width == 64
    &&& rows <= l.groups.width * 8
    &&& (l.groups.width - 1) * 8 < rows
}

// ------------------------------------------------------------------ q, k, v --

/// Three banks multiplied by one vector. The bank from slot 0 on goes with the
/// output in slot 7, the one from slot 2 on with that in slot 8, the one from slot
/// 4 on with that in slot 9.
pub open spec fn qkv_seen(
    before: RuntimeState,
    after: RuntimeState,
    q: Q4MlxBankAt,
    k: Q4MlxBankAt,
    v: Q4MlxBankAt,
    x_bf16: Storage,
    out: QkvOutputsAt,
    rows_q: u32,
    rows_kv: u32,
    cols: u32,
    group_size: u32,
    layout: Q4MlxLayout,
    scalars: Seq<Bind>,
) -> bool {
    let l = dispatch(before, after);
    &&& ran(
        before,
        after,
        match layout {
            Q4MlxLayout::RowMajor => "gemv_q4_mlx_simd_qkv"@,
            Q4MlxLayout::Interleaved4 => "gemv_q4_mlx_simd_qkv_i4"@,
        },
    )
    &&& l.gets(0, q.packed, 0)
    &&& l.gets(1, q.scales_biases, 0)
    &&& l.gets(7, out.q_out, 0)
    &&& l.gets(2, k.packed, 0)
    &&& l.gets(3, k.scales_biases, 0)
    &&& l.gets(8, out.k_out, 0)
    &&& l.gets(4, v.packed, 0)
    &&& l.gets(5, v.scales_biases, 0)
    &&& l.gets(9, out.v_out, 0)
    &&& l.gets(6, x_bf16, 0)
    &&& carried(l, scalars)
    &&& l.flat()
    &&& l.threads.width == 64
    &&& exists|a: int, b: int|
        #![trigger groups_split(a, b)]
        groups_split(a, b) == l.groups.width && rows_q <= a * 8 && (a - 1) * 8 < rows_q && rows_kv
            <= b * 8 && (b - 1) * 8 < rows_kv
    &&& bank_room(before, q, QuantShape { rows: rows_q, cols, group_size })
    &&& bank_room(before, k, QuantShape { rows: rows_kv, cols, group_size })
    &&& bank_room(before, v, QuantShape { rows: rows_kv, cols, group_size })
    &&& has_room(before, x_bf16, cols * 2)
    &&& has_room(before, out.q_out, rows_q * 4)
    &&& has_room(before, out.k_out, rows_kv * 4)
    &&& has_room(before, out.v_out, rows_kv * 4)
    &&& rows_q > 0 && rows_kv > 0 ==> {
        &&& out.q_out.slab.id != out.k_out.slab.id
        &&& out.q_out.slab.id != out.v_out.slab.id
    }
    &&& rows_kv > 0 ==> {
        &&& out.k_out.slab.id != out.v_out.slab.id
        &&& out.k_out.slab.id != x_bf16.slab.id
        &&& out.v_out.slab.id != x_bf16.slab.id
    }
    &&& rows_q > 0 ==> out.q_out.slab.id != x_bf16.slab.id
}

/// Groups for `a` blocks of the first bank and `b` of each of the others.
pub open spec fn groups_split(a: int, b: int) -> int {
    a + 2 * b
}

/// An accepted call for queries, keys and values hands each bank to the kernel
/// beside the output of its own name.
#[verifier::rlimit(40)]
pub broadcast proof fn law_qkv(
    rt: RuntimeState,
    q: Q4MlxBankAt,
    k: Q4MlxBankAt,
    v: Q4MlxBankAt,
    x_bf16: Storage,
    out: QkvOutputsAt,
    rows_q: u32,
    rows_kv: u32,
    cols: u32,
    group_size: u32,
    layout: Q4MlxLayout,
    scalars: Seq<Bind>,
)
    requires
        rows_q > 0 || rows_kv > 0,
        from_slot(scalars, 10),
        gemv_q4_mlx_qkv_step(
            rt,
            q,
            k,
            v,
            x_bf16,
            out,
            rows_q,
            rows_kv,
            cols,
            group_size,
            layout,
            scalars,
        ).1 is None,
        in_view(
            rt,
            gemv_q4_mlx_qkv_step(
                rt,
                q,
                k,
                v,
                x_bf16,
                out,
                rows_q,
                rows_kv,
                cols,
                group_size,
                layout,
                scalars,
            ).0,
        ),
    ensures
        qkv_seen(
            rt,
            (#[trigger] gemv_q4_mlx_qkv_step(
                rt,
                q,
                k,
                v,
                x_bf16,
                out,
                rows_q,
                rows_kv,
                cols,
                group_size,
                layout,
                scalars,
            )).0,
            q,
            k,
            v,
            x_bf16,
            out,
            rows_q,
            rows_kv,
            cols,
            group_size,
            layout,
            scalars,
        ),
{
    let entry = crate::nn::gemv::qkv_entry(layout);
    let q_shape = QuantShape { rows: rows_q, cols, group_size };
    let kv_shape = QuantShape { rows: rows_kv, cols, group_size };
    lemma_bank(rt, q, q_shape, entry + " q"@);
    lemma_bank(rt, k, kv_shape, entry + " k"@);
    lemma_bank(rt, v, kv_shape, entry + " v"@);
    crate::sizes::lemma_ceil_div_covers(rows_q as int, 8);
    crate::sizes::lemma_ceil_div_covers(rows_kv as int, 8);
    let head = seq![
        at(q.packed, 0),
        at(q.scales_biases, 1),
        at(k.packed, 2),
        at(k.scales_biases, 3),
        at(v.packed, 4),
        at(v.scales_biases, 5),
        at(x_bf16, 6),
        at(out.q_out, 7),
        at(out.k_out, 8),
        at(out.v_out, 9),
    ];
    reveal_with_fuel(rising, 11);
    let f = |p: Pipeline| 64usize;
    lemma_headed_groups(
        rt,
        entry,
        head,
        scalars,
        10,
        None,
        (simd_groups(rows_q) + 2 * simd_groups(rows_kv)) as usize,
        1,
        f,
    );
    let t = gemv_q4_mlx_qkv_step(
        rt,
        q,
        k,
        v,
        x_bf16,
        out,
        rows_q,
        rows_kv,
        cols,
        group_size,
        layout,
        scalars,
    ).0;
    let l = dispatch(rt, t);
    reveal(carried);
    assert(carries(l, head[0]) && carries(l, head[1]) && carries(l, head[2]));
    assert(carries(l, head[3]) && carries(l, head[4]) && carries(l, head[5]));
    assert(carries(l, head[6]) && carries(l, head[7]) && carries(l, head[8]));
    assert(carries(l, head[9]));
    assert(groups_split(ceil_div(rows_q as int, 8), ceil_div(rows_kv as int, 8))
        == l.groups.width);
    lemma_qkv_apart(entry, q, k, v, x_bf16, out, rows_q, rows_kv);
    lemma_room(rt, x_bf16, cols as int, 2, entry + " x_bf16"@);
    lemma_room(rt, out.q_out, rows_q as int, 4, entry + " q_out"@);
    lemma_room(rt, out.k_out, rows_kv as int, 4, entry + " k_out"@);
    lemma_room(rt, out.v_out, rows_kv as int, 4, entry + " v_out"@);
}

proof fn lemma_qkv_apart(
    entry: Seq<char>,
    q: Q4MlxBankAt,
    k: Q4MlxBankAt,
    v: Q4MlxBankAt,
    x_bf16: Storage,
    out: QkvOutputsAt,
    rows_q: u32,
    rows_kv: u32,
)
    requires
        rows_q > 0 || rows_kv > 0,
        qkv_clash(entry, q, k, v, x_bf16, out, rows_q, rows_kv) is None,
    ensures
        rows_q > 0 && rows_kv > 0 ==> {
            &&& out.q_out.slab.id != out.k_out.slab.id
            &&& out.q_out.slab.id != out.v_out.slab.id
        },
        rows_kv > 0 ==> {
            &&& out.k_out.slab.id != out.v_out.slab.id
            &&& out.k_out.slab.id != x_bf16.slab.id
            &&& out.v_out.slab.id != x_bf16.slab.id
        },
        rows_q > 0 ==> out.q_out.slab.id != x_bf16.slab.id,
{
    let q_out = &out.q_out;
    let k_out = &out.k_out;
    let v_out = &out.v_out;
    if rows_q == 0 {
        let w = seq![("k_out", k_out), ("v_out", v_out)];
        let r = seq![
            ("k_packed", &k.packed),
            ("k_scales_biases", &k.scales_biases),
            ("v_packed", &v.packed),
            ("v_scales_biases", &v.scales_biases),
            ("x_bf16", &x_bf16),
        ];
        lemma_apart(entry, w, r);
        assert(w[0].1 == k_out && w[1].1 == v_out && r[4].1 == x_bf16);
    } else if rows_kv == 0 {
        let w = seq![("q_out", q_out)];
        let r = seq![
            ("q_packed", &q.packed),
            ("q_scales_biases", &q.scales_biases),
            ("x_bf16", &x_bf16),
        ];
        lemma_apart(entry, w, r);
        assert(w[0].1 == q_out && r[2].1 == x_bf16);
    } else {
        let w = seq![("q_out", q_out), ("k_out", k_out), ("v_out", v_out)];
        let r = seq![
            ("q_packed", &q.packed),
            ("q_scales_biases", &q.scales_biases),
            ("k_packed", &k.packed),
            ("k_scales_biases", &k.scales_biases),
            ("v_packed", &v.packed),
            ("v_scales_biases", &v.scales_biases),
            ("x_bf16", &x_bf16),
        ];
        lemma_apart(entry, w, r);
        assert(w[0].1 == q_out && w[1].1 == k_out && w[2].1 == v_out && r[6].1 == x_bf16);
    }
}

// --------------------------------------------------------------------- k, v --

/// Two banks multiplied by one vector: the bank from slot 0 on goes with the output
/// in slot 7, the one from slot 3 on with that in slot 8.
pub open spec fn kv_seen(
    before: RuntimeState,
    after: RuntimeState,
    k: Q4MlxBankAt,
    v: Q4MlxBankAt,
    x_bf16: Storage,
    k_out: Storage,
    v_out: Storage,
    shape: QuantShape,
    layout: Q4MlxLayout,
    scalars: Seq<Bind>,
) -> bool {
    let l = dispatch(before, after);
    &&& ran(
        before,
        after,
        match layout {
            Q4MlxLayout::RowMajor => "gemv_q4_mlx_simd_kv"@,
            Q4MlxLayout::Interleaved4 => "gemv_q4_mlx_simd_kv_i4"@,
        },
    )
    &&& gets_bank(l, 0, k)
    &&& l.gets(7, k_out, 0)
    &&& gets_bank(l, 3, v)
    &&& l.gets(8, v_out, 0)
    &&& l.gets(6, x_bf16, 0)
    &&& carried(l, scalars)
    &&& l.flat()
    &&& l.threads.width == 64
    &&& l.groups.width % 2 == 0
    &&& shape.rows <= l.groups.width / 2 * 8
    &&& (l.groups.width / 2 - 1) * 8 < shape.rows
    &&& bank_room(before, k, shape)
    &&& bank_room(before, v, shape)
    &&& has_room(before, x_bf16, shape.cols * 2)
    &&& has_room(before, k_out, shape.rows * 4)
    &&& has_room(before, v_out, shape.rows * 4)
    &&& k_out.slab.id != v_out.slab.id
    &&& k_out.slab.id != x_bf16.slab.id
    &&& v_out.slab.id != x_bf16.slab.id
}

/// An accepted call for keys and values hands each bank to the kernel beside the
/// output of its own name.
#[verifier::rlimit(40)]
pub broadcast proof fn law_kv(
    rt: RuntimeState,
    k: Q4MlxBankAt,
    v: Q4MlxBankAt,
    x_bf16: Storage,
    k_out: Storage,
    v_out: Storage,
    shape: QuantShape,
    layout: Q4MlxLayout,
    scalars: Seq<Bind>,
)
    requires
        shape.rows > 0,
        from_slot(scalars, 9),
        gemv_q4_mlx_kv_step(rt, k, v, x_bf16, k_out, v_out, shape, layout, scalars).1 is None,
        in_view(
            rt,
            gemv_q4_mlx_kv_step(rt, k, v, x_bf16, k_out, v_out, shape, layout, scalars).0,
        ),
    ensures
        kv_seen(
            rt,
            (#[trigger] gemv_q4_mlx_kv_step(
                rt,
                k,
                v,
                x_bf16,
                k_out,
                v_out,
                shape,
                layout,
                scalars,
            )).0,
            k,
            v,
            x_bf16,
            k_out,
            v_out,
            shape,
            layout,
            scalars,
        ),
{
    let entry = crate::nn::gemv::kv_entry(layout);
    lemma_bank(rt, k, shape, entry + " k"@);
    lemma_bank(rt, v, shape, entry + " v"@);
    crate::sizes::lemma_ceil_div_covers(shape.rows as int, 8);
    let head = seq![
        at(k.packed, 0),
        at(k.scales_biases, 1),
        at(k.scales_biases, 2),
        at(v.packed, 3),
        at(v.scales_biases, 4),
        at(v.scales_biases, 5),
        at(x_bf16, 6),
        at(k_out, 7),
        at(v_out, 8),
    ];
    assert(mlx_binds(k, 0) + mlx_binds(v, 3) + seq![at(x_bf16, 6), at(k_out, 7), at(v_out, 8)]
        =~= head);
    reveal_with_fuel(rising, 10);
    let f = |p: Pipeline| 64usize;
    lemma_headed_groups(
        rt,
        entry,
        head,
        scalars,
        9,
        None,
        (simd_groups(shape.rows) * 2) as usize,
        1,
        f,
    );
    let t = gemv_q4_mlx_kv_step(rt, k, v, x_bf16, k_out, v_out, shape, layout, scalars).0;
    let l = dispatch(rt, t);
    reveal(carried);
    assert(carries(l, head[0]) && carries(l, head[1]) && carries(l, head[2]));
    assert(carries(l, head[3]) && carries(l, head[4]) && carries(l, head[5]));
    assert(carries(l, head[6]) && carries(l, head[7]) && carries(l, head[8]));
    let ko = &k_out;
    let vo = &v_out;
    let w = seq![("k_out", ko), ("v_out", vo)];
    let r = seq![
        ("k_packed", &k.packed),
        ("k_scales_biases", &k.scales_biases),
        ("v_packed", &v.packed),
        ("v_scales_biases", &v.scales_biases),
        ("x_bf16", &x_bf16),
    ];
    lemma_apart("gemv_q4_mlx_kv"@, w, r);
    assert(w[0].1 == ko && w[1].1 == vo && r[4].1 == x_bf16);
    lemma_room(rt, x_bf16, shape.cols as int, 2, entry + " x_bf16"@);
    lemma_room(rt, k_out, shape.rows as int, 4, entry + " k_out"@);
    lemma_room(rt, v_out, shape.rows as int, 4, entry + " v_out"@);
}

// ---------------------------------------------------------- one projection --

/// One bank multiplied by a bf16 vector: the bank from slot 0 on, the vector in slot
/// 3, the output in slot 4, and a residual, where there is one, in slot 8.
pub open spec fn simd_seen(
    before: RuntimeState,
    after: RuntimeState,
    bank: Q4MlxBankAt,
    x_bf16: Storage,
    y: Storage,
    shape: QuantShape,
    layout: Q4MlxLayout,
    resid: Option<Storage>,
    scalars: Seq<Bind>,
) -> bool {
    let l = dispatch(before, after);
    &&& ran(
        before,
        after,
        match (resid is Some, layout) {
            (false, Q4MlxLayout::RowMajor) => "gemv_q4_mlx_simd"@,
            (false, Q4MlxLayout::Interleaved4) => "gemv_q4_mlx_simd_i4"@,
            (true, Q4MlxLayout::RowMajor) => "gemv_q4_mlx_simd_add"@,
            (true, Q4MlxLayout::Interleaved4) => "gemv_q4_mlx_simd_add_i4"@,
        },
    )
    &&& gets_bank(l, 0, bank)
    &&& l.gets(3, x_bf16, 0)
    &&& l.gets(4, y, 0)
    &&& carried(l, scalars)
    &&& resid matches Some(r) ==> l.gets(8, r, 0) && has_room(before, r, shape.rows * 4)
    &&& eight_rows_each(l, shape.rows as int)
    &&& bank_room(before, bank, shape)
    &&& has_room(before, x_bf16, shape.cols * 2)
    &&& has_room(before, y, shape.rows * 4)
    &&& y.slab.id != bank.packed.slab.id
    &&& y.slab.id != bank.scales_biases.slab.id
    &&& y.slab.id != x_bf16.slab.id
}

/// An accepted projection hands the bank, the vector, the output and the residual to
/// the kernel in their slots.
#[verifier::rlimit(40)]
pub broadcast proof fn law_simd(
    rt: RuntimeState,
    bank: Q4MlxBankAt,
    x_bf16: Storage,
    y: Storage,
    shape: QuantShape,
    layout: Q4MlxLayout,
    resid: Option<Storage>,
    scalars: Seq<Bind>,
)
    requires
        shape.rows > 0,
        beside(scalars, 5, 8, 8),
        gemv_q4_mlx_simd_step(rt, bank, x_bf16, y, shape, layout, resid, scalars).1 is None,
        in_view(rt, gemv_q4_mlx_simd_step(rt, bank, x_bf16, y, shape, layout, resid, scalars).0),
    ensures
        simd_seen(
            rt,
            (#[trigger] gemv_q4_mlx_simd_step(rt, bank, x_bf16, y, shape, layout, resid, scalars)).0,
            bank,
            x_bf16,
            y,
            shape,
            layout,
            resid,
            scalars,
        ),
{
    let t = gemv_q4_mlx_simd_step(rt, bank, x_bf16, y, shape, layout, resid, scalars).0;
    let l = dispatch(rt, t);
    let entry = crate::nn::gemv::simd_entry(resid is Some, layout);
    lemma_bank(rt, bank, shape, entry);
    let yo = &y;
    let w = seq![("y", yo)];
    let r = seq![
        ("packed", &bank.packed),
        ("scales_biases", &bank.scales_biases),
        ("x_bf16", &x_bf16),
    ];
    lemma_apart("gemv_q4_mlx_simd"@, w, r);
    assert(w[0].1 == yo && r[0].1 == bank.packed && r[1].1 == bank.scales_biases && r[2].1
        == x_bf16);
    let head = seq![
        at(bank.packed, 0),
        at(bank.scales_biases, 1),
        at(bank.scales_biases, 2),
        at(x_bf16, 3),
        at(y, 4),
    ];
    assert(mlx_binds(bank, 0) + seq![at(x_bf16, 3), at(y, 4)] =~= head);
    reveal_with_fuel(rising, 6);
    crate::sizes::lemma_ceil_div_covers(shape.rows as int, 8);
    let tail = resid_binds(resid, 8);
    let f = |p: Pipeline| 64usize;
    lemma_kernel_groups(
        rt,
        entry,
        head + scalars + tail,
        None,
        simd_groups(shape.rows),
        1,
        f,
    );
    lemma_carried_beside(l, head, scalars, tail, 5, 8, 8);
    reveal(carried);
    if resid is Some {
        assert(carries(l, tail[0]));
    }
    assert(carries(l, head[0]) && carries(l, head[1]) && carries(l, head[2]));
    assert(carries(l, head[3]) && carries(l, head[4]));
    lemma_room(rt, x_bf16, shape.cols as int, 2, entry + " x_bf16"@);
    lemma_room(rt, y, shape.rows as int, 4, entry + " y"@);
    if let Some(r) = resid {
        lemma_room(rt, r, shape.rows as int, 4, entry + " resid"@);
    }
}

/// One bank multiplied by up to eight bf16 vectors; a residual is in slot 9.
pub open spec fn batch_simd_seen(
    before: RuntimeState,
    after: RuntimeState,
    bank: Q4MlxBankAt,
    x_bf16: Storage,
    y: Storage,
    shape: QuantShape,
    m: u32,
    layout: Q4MlxLayout,
    resid: Option<Storage>,
    scalars: Seq<Bind>,
) -> bool {
    let l = dispatch(before, after);
    &&& ran(
        before,
        after,
        match (resid is Some, layout) {
            (false, Q4MlxLayout::RowMajor) => "gemm_q4_mlx_simd"@,
            (false, Q4MlxLayout::Interleaved4) => "gemm_q4_mlx_simd_i4"@,
            (true, Q4MlxLayout::RowMajor) => "gemm_q4_mlx_simd_add"@,
            (true, Q4MlxLayout::Interleaved4) => "gemm_q4_mlx_simd_add_i4"@,
        },
    )
    &&& 1 <= m <= 8
    &&& gets_bank(l, 0, bank)
    &&& l.gets(3, x_bf16, 0)
    &&& l.gets(4, y, 0)
    &&& carried(l, scalars)
    &&& resid matches Some(r) ==> l.gets(9, r, 0) && has_room(before, r, m * shape.rows * 4)
    &&& eight_rows_each(l, shape.rows as int)
    &&& bank_room(before, bank, shape)
    &&& has_room(before, x_bf16, m * shape.cols * 2)
    &&& has_room(before, y, m * shape.rows * 4)
    &&& y.slab.id != bank.packed.slab.id
    &&& y.slab.id != bank.scales_biases.slab.id
    &&& y.slab.id != x_bf16.slab.id
}

/// So does one of several vectors at once.
#[verifier::rlimit(40)]
pub broadcast proof fn law_batch_simd(
    rt: RuntimeState,
    bank: Q4MlxBankAt,
    x_bf16: Storage,
    y: Storage,
    shape: QuantShape,
    m: u32,
    layout: Q4MlxLayout,
    resid: Option<Storage>,
    scalars: Seq<Bind>,
)
    requires
        m > 0,
        shape.rows > 0,
        beside(scalars, 5, 9, 9),
        gemm_q4_mlx_step(rt, bank, x_bf16, y, shape, m, layout, resid, scalars).1 is None,
        in_view(rt, gemm_q4_mlx_step(rt, bank, x_bf16, y, shape, m, layout, resid, scalars).0),
    ensures
        batch_simd_seen(
            rt,
            (#[trigger] gemm_q4_mlx_step(rt, bank, x_bf16, y, shape, m, layout, resid, scalars)).0,
            bank,
            x_bf16,
            y,
            shape,
            m,
            layout,
            resid,
            scalars,
        ),
{
    let t = gemm_q4_mlx_step(rt, bank, x_bf16, y, shape, m, layout, resid, scalars).0;
    let l = dispatch(rt, t);
    let entry = crate::nn::gemv::gemm_q4_entry(resid is Some, layout);
    lemma_bank(rt, bank, shape, entry);
    let yo = &y;
    let w = seq![("y", yo)];
    let r = seq![
        ("packed", &bank.packed),
        ("scales_biases", &bank.scales_biases),
        ("x_bf16", &x_bf16),
    ];
    lemma_apart("gemm_q4_mlx"@, w, r);
    assert(w[0].1 == yo && r[0].1 == bank.packed && r[1].1 == bank.scales_biases && r[2].1
        == x_bf16);
    let head = seq![
        at(bank.packed, 0),
        at(bank.scales_biases, 1),
        at(bank.scales_biases, 2),
        at(x_bf16, 3),
        at(y, 4),
    ];
    assert(mlx_binds(bank, 0) + seq![at(x_bf16, 3), at(y, 4)] =~= head);
    reveal_with_fuel(rising, 6);
    crate::sizes::lemma_ceil_div_covers(shape.rows as int, 8);
    let tail = resid_binds(resid, 9);
    let f = |p: Pipeline| 64usize;
    lemma_kernel_groups(
        rt,
        entry,
        head + scalars + tail,
        None,
        simd_groups(shape.rows),
        1,
        f,
    );
    lemma_carried_beside(l, head, scalars, tail, 5, 9, 9);
    reveal(carried);
    if resid is Some {
        assert(carries(l, tail[0]));
    }
    assert(carries(l, head[0]) && carries(l, head[1]) && carries(l, head[2]));
    assert(carries(l, head[3]) && carries(l, head[4]));
    lemma_room(rt, x_bf16, m * shape.cols, 2, entry + " x_bf16"@);
    lemma_room(rt, y, m * shape.rows, 4, entry + " y"@);
    if let Some(r) = resid {
        lemma_room(rt, r, m * shape.rows, 4, entry + " resid"@);
    }
}

/// One bank multiplied in blocks of sixteen rows, with up to 4096 floats of the
/// vector in threadgroup memory.
pub open spec fn blocked_seen(
    before: RuntimeState,
    after: RuntimeState,
    bank: Q4MlxBankAt,
    x: Storage,
    y: Storage,
    shape: QuantShape,
    scalars: Seq<Bind>,
) -> bool {
    let l = dispatch(before, after);
    &&& ran(before, after, "gemv_q4_mlx_blocked"@)
    &&& gets_bank(l, 0, bank)
    &&& l.gets(3, x, 0)
    &&& l.gets(4, y, 0)
    &&& carried(l, scalars)
    &&& l.flat()
    &&& l.threads.width == 256
    &&& shape.rows <= l.groups.width * 16
    &&& (l.groups.width - 1) * 16 < shape.rows
    &&& l.scene.memory.contains_key(0)
    &&& l.scene.memory[0] == 4 * least(shape.cols as int, 4096)
    &&& bank_room(before, bank, shape)
    &&& has_room(before, x, shape.cols * 4)
    &&& has_room(before, y, shape.rows * 4)
    &&& y.slab.id != bank.packed.slab.id
    &&& y.slab.id != bank.scales_biases.slab.id
    &&& y.slab.id != x.slab.id
}

/// So does one in blocks.
#[verifier::rlimit(40)]
pub broadcast proof fn law_blocked(
    rt: RuntimeState,
    bank: Q4MlxBankAt,
    x: Storage,
    y: Storage,
    shape: QuantShape,
    scalars: Seq<Bind>,
)
    requires
        shape.rows > 0,
        from_slot(scalars, 5),
        gemv_q4_mlx_blocked_step(rt, bank, x, y, shape, scalars).1 is None,
        in_view(rt, gemv_q4_mlx_blocked_step(rt, bank, x, y, shape, scalars).0),
    ensures
        blocked_seen(
            rt,
            (#[trigger] gemv_q4_mlx_blocked_step(rt, bank, x, y, shape, scalars)).0,
            bank,
            x,
            y,
            shape,
            scalars,
        ),
{
    let t = gemv_q4_mlx_blocked_step(rt, bank, x, y, shape, scalars).0;
    let l = dispatch(rt, t);
    lemma_bank(rt, bank, shape, "gemv_q4_mlx_blocked"@);
    let yo = &y;
    let w = seq![("y", yo)];
    let r = seq![
        ("packed", &bank.packed),
        ("scales_biases", &bank.scales_biases),
        ("x", &x),
    ];
    lemma_apart("gemv_q4_mlx_blocked"@, w, r);
    assert(w[0].1 == yo && r[0].1 == bank.packed && r[1].1 == bank.scales_biases && r[2].1
        == x);
    let head = seq![
        at(bank.packed, 0),
        at(bank.scales_biases, 1),
        at(bank.scales_biases, 2),
        at(x, 3),
        at(y, 4),
    ];
    assert(mlx_binds(bank, 0) + seq![at(x, 3), at(y, 4)] =~= head);
    reveal_with_fuel(rising, 6);
    crate::sizes::lemma_ceil_div_covers(shape.rows as int, 16);
    let f = |p: Pipeline| 256usize;
    lemma_headed_groups(
        rt,
        "gemv_q4_mlx_blocked"@,
        head,
        scalars,
        5,
        Some((0, x_tile_bytes(shape.cols))),
        ceil_div(shape.rows as int, 16) as usize,
        1,
        f,
    );
    reveal(carried);
    assert(carries(l, head[0]) && carries(l, head[1]) && carries(l, head[2]));
    assert(carries(l, head[3]) && carries(l, head[4]));
    lemma_room(rt, x, shape.cols as int, 4, "gemv_q4_mlx_blocked x"@);
    lemma_room(rt, y, shape.rows as int, 4, "gemv_q4_mlx_blocked y"@);
}

/// Two banks multiplied by one vector, one gating the other: the gating one from slot 0 on, the
/// other from slot 3 on, the vector in slot 6, the output in slot 7.
pub open spec fn gate_up_seen(
    before: RuntimeState,
    after: RuntimeState,
    gate: Q4MlxBankAt,
    up: Q4MlxBankAt,
    x: Storage,
    mid: Storage,
    shape: QuantShape,
    how: GateUpDispatch,
    mid_as_bf16: bool,
    scalars: Seq<Bind>,
) -> bool {
    let l = dispatch(before, after);
    let blocked = how == GateUpDispatch::Blocked;
    &&& ran(
        before,
        after,
        match how {
            GateUpDispatch::Simd(Q4MlxLayout::RowMajor) => "gemv_q4_mlx_simd_gate_up_gelu"@,
            GateUpDispatch::Simd(Q4MlxLayout::Interleaved4) => "gemv_q4_mlx_simd_gate_up_gelu_i4"@,
            GateUpDispatch::Blocked => "gemv_q4_mlx_blocked_gate_up_gelu"@,
        },
    )
    &&& gets_bank(l, 0, gate)
    &&& gets_bank(l, 3, up)
    &&& l.gets(6, x, 0)
    &&& l.gets(7, mid, 0)
    &&& carried(l, scalars)
    &&& !blocked ==> eight_rows_each(l, shape.rows as int)
    &&& blocked ==> {
        &&& l.flat()
        &&& l.threads.width == 256
        &&& shape.rows <= l.groups.width * 16
        &&& (l.groups.width - 1) * 16 < shape.rows
        &&& l.scene.memory.contains_key(0)
        &&& l.scene.memory[0] == 4 * shape.cols
        &&& shape.cols <= 4096
    }
    &&& bank_room(before, gate, shape)
    &&& bank_room(before, up, shape)
    &&& has_room(
        before,
        x,
        shape.cols * (if blocked {
            4int
        } else {
            2int
        }),
    )
    &&& has_room(
        before,
        mid,
        shape.rows * (if mid_as_bf16 {
            2int
        } else {
            4int
        }),
    )
    &&& mid.slab.id != x.slab.id
    &&& mid.slab.id != gate.packed.slab.id
    &&& mid.slab.id != up.packed.slab.id
}

/// An accepted projection of this kind hands both banks to the kernel in
/// their slots, and the vector and the output in theirs.
#[verifier::rlimit(40)]
pub broadcast proof fn law_gate_up(
    rt: RuntimeState,
    gate: Q4MlxBankAt,
    up: Q4MlxBankAt,
    x: Storage,
    mid: Storage,
    shape: QuantShape,
    how: GateUpDispatch,
    mid_as_bf16: bool,
    scalars: Seq<Bind>,
)
    requires
        shape.rows > 0,
        from_slot(scalars, 8),
        gate_up_step(rt, gate, up, x, mid, shape, how, mid_as_bf16, scalars).1 is None,
        in_view(rt, gate_up_step(rt, gate, up, x, mid, shape, how, mid_as_bf16, scalars).0),
    ensures
        gate_up_seen(
            rt,
            (#[trigger] gate_up_step(rt, gate, up, x, mid, shape, how, mid_as_bf16, scalars)).0,
            gate,
            up,
            x,
            mid,
            shape,
            how,
            mid_as_bf16,
            scalars,
        ),
{
    let t = gate_up_step(rt, gate, up, x, mid, shape, how, mid_as_bf16, scalars).0;
    let l = dispatch(rt, t);
    let entry = how.kernel();
    let blocked = how.is_blocked();
    lemma_bank(rt, gate, shape, entry + " gate"@);
    lemma_bank(rt, up, shape, entry + " up"@);
    let out = &mid;
    let w = seq![("mid", out)];
    let r = seq![
        ("gate_packed", &gate.packed),
        ("gate_scales_biases", &gate.scales_biases),
        ("up_packed", &up.packed),
        ("up_scales_biases", &up.scales_biases),
        ("x", &x),
    ];
    lemma_apart("gemv_q4_mlx_gate_up_gelu"@, w, r);
    assert(w[0].1 == out && r[0].1 == gate.packed && r[2].1 == up.packed && r[4].1 == x);
    let head = seq![
        at(gate.packed, 0),
        at(gate.scales_biases, 1),
        at(gate.scales_biases, 2),
        at(up.packed, 3),
        at(up.scales_biases, 4),
        at(up.scales_biases, 5),
        at(x, 6),
        at(mid, 7),
    ];
    assert(mlx_binds(gate, 0) + mlx_binds(up, 3) + seq![at(x, 6), at(mid, 7)] =~= head);
    reveal_with_fuel(rising, 9);
    crate::sizes::lemma_ceil_div_covers(shape.rows as int, 16);
    crate::sizes::lemma_ceil_div_covers(shape.rows as int, 8);
    let f = |p: Pipeline|
        if blocked {
            256usize
        } else {
            64usize
        };
    lemma_headed_groups(
        rt,
        entry,
        head,
        scalars,
        8,
        if blocked {
            Some((0usize, x_tile_bytes(shape.cols)))
        } else {
            None
        },
        if blocked {
            ceil_div(shape.rows as int, 16) as usize
        } else {
            simd_groups(shape.rows)
        },
        1,
        f,
    );
    reveal(carried);
    assert(carries(l, head[0]) && carries(l, head[1]) && carries(l, head[2]));
    assert(carries(l, head[3]) && carries(l, head[4]) && carries(l, head[5]));
    assert(carries(l, head[6]) && carries(l, head[7]));
    if blocked {
        lemma_room(rt, x, shape.cols as int, 4, entry + " x"@);
    } else {
        lemma_room(rt, x, shape.cols as int, 2, entry + " x"@);
    }
    if mid_as_bf16 {
        lemma_room(rt, mid, shape.rows as int, 2, entry + " mid (bf16)"@);
    } else {
        lemma_room(rt, mid, shape.rows as int, 4, entry + " mid"@);
    }
}

/// Byte weights multiplied by a vector: weights, scales, zero points, vector and
/// output in slots 0 to 4.
pub open spec fn q8_seen(
    before: RuntimeState,
    after: RuntimeState,
    packed: Storage,
    scales: Storage,
    zeros: Storage,
    x: Storage,
    y: Storage,
    rows: u32,
    cols: u32,
    group_size: u32,
    scalars: Seq<Bind>,
) -> bool {
    let l = dispatch(before, after);
    &&& ran(before, after, "gemv_q8"@)
    &&& l.gets(0, packed, 0)
    &&& l.gets(1, scales, 0)
    &&& l.gets(2, zeros, 0)
    &&& l.gets(3, x, 0)
    &&& l.gets(4, y, 0)
    &&& carried(l, scalars)
    &&& eight_rows_each(l, rows as int)
    &&& group_size > 0
    &&& cols % group_size == 0
    &&& has_room(before, packed, rows * cols)
    &&& has_room(before, scales, rows * (cols / group_size) * 4)
    &&& has_room(before, zeros, rows * (cols / group_size) * 4)
    &&& has_room(before, x, cols * 4)
    &&& has_room(before, y, rows * 4)
    &&& y.slab.id != packed.slab.id
    &&& y.slab.id != scales.slab.id
    &&& y.slab.id != zeros.slab.id
    &&& y.slab.id != x.slab.id
}

/// An accepted multiplication of byte weights hands each operand to the kernel in its
/// slot.
#[verifier::rlimit(40)]
pub broadcast proof fn law_q8(
    rt: RuntimeState,
    packed: Storage,
    scales: Storage,
    zeros: Storage,
    x: Storage,
    y: Storage,
    rows: u32,
    cols: u32,
    group_size: u32,
    scalars: Seq<Bind>,
)
    requires
        rows > 0,
        from_slot(scalars, 5),
        gemv_q8_step(rt, packed, scales, zeros, x, y, rows, cols, group_size, scalars).1 is None,
        in_view(rt, gemv_q8_step(rt, packed, scales, zeros, x, y, rows, cols, group_size, scalars).0),
    ensures
        q8_seen(
            rt,
            (#[trigger] gemv_q8_step(rt, packed, scales, zeros, x, y, rows, cols, group_size, scalars)).0,
            packed,
            scales,
            zeros,
            x,
            y,
            rows,
            cols,
            group_size,
            scalars,
        ),
{
    let t = gemv_q8_step(rt, packed, scales, zeros, x, y, rows, cols, group_size, scalars).0;
    let l = dispatch(rt, t);
    let head = seq![at(packed, 0), at(scales, 1), at(zeros, 2), at(x, 3), at(y, 4)];
    reveal_with_fuel(rising, 6);
    crate::sizes::lemma_ceil_div_covers(rows as int, 8);
    let f = |p: Pipeline| 64usize;
    lemma_headed_groups(rt, "gemv_q8"@, head, scalars, 5, None, simd_groups(rows), 1, f);
    reveal(carried);
    assert(carries(l, head[0]) && carries(l, head[1]) && carries(l, head[2]));
    assert(carries(l, head[3]) && carries(l, head[4]));
    let out = &y;
    let w = seq![("y", out)];
    let r = seq![("packed", &packed), ("scales", &scales), ("zeros", &zeros), ("x", &x)];
    lemma_apart("gemv_q8"@, w, r);
    assert(w[0].1 == out && r[0].1 == packed && r[1].1 == scales && r[2].1 == zeros && r[3].1
        == x);
    lemma_room(rt, packed, rows * cols, 1, "gemv_q8 packed"@);
    lemma_room(rt, scales, rows * (cols / group_size), 4, "gemv_q8 scales"@);
    lemma_room(rt, zeros, rows * (cols / group_size), 4, "gemv_q8 zeros"@);
    lemma_room(rt, x, cols as int, 4, "gemv_q8 x"@);
    lemma_room(rt, y, rows as int, 4, "gemv_q8 y"@);
}

/// A lookup of tokens: the bank from slot 0 on, the tokens in slot 3, the output in
/// slot 4, a thread for each element of it.
pub open spec fn embed_lookup_q4_seen(
    before: RuntimeState,
    after: RuntimeState,
    bank: Q4BankAt,
    token_ids: Storage,
    out: Storage,
    vocab: u32,
    hidden: u32,
    group_size: u32,
    n_tokens: u32,
    scalars: Seq<Bind>,
) -> bool {
    let l = dispatch(before, after);
    &&& ran(before, after, "embed_lookup_q4"@)
    &&& l.gets(0, bank.packed, 0)
    &&& l.gets(1, bank.scales, 0)
    &&& l.gets(2, bank.zeros, 0)
    &&& l.gets(3, token_ids, 0)
    &&& l.gets(4, out, 0)
    &&& carried(l, scalars)
    &&& covers(l, n_tokens * hidden)
    &&& table_room(before, bank, QuantShape { rows: vocab, cols: hidden, group_size })
    &&& has_room(before, token_ids, n_tokens * 4)
    &&& has_room(before, out, n_tokens * hidden * 4)
    &&& out.slab.id != token_ids.slab.id
    &&& out.slab.id != bank.packed.slab.id
}

/// An accepted lookup hands the bank, the tokens and the output to the kernel in their
/// slots.
#[verifier::rlimit(40)]
pub broadcast proof fn law_embed_lookup_q4(
    rt: RuntimeState,
    bank: Q4BankAt,
    token_ids: Storage,
    out: Storage,
    vocab: u32,
    hidden: u32,
    group_size: u32,
    n_tokens: u32,
    scalars: Seq<Bind>,
)
    requires
        n_tokens > 0 && hidden > 0,
        from_slot(scalars, 5),
        embed_lookup_q4_step(rt, bank, token_ids, out, vocab, hidden, group_size, n_tokens, scalars).1 is None,
        in_view(rt, embed_lookup_q4_step(rt, bank, token_ids, out, vocab, hidden, group_size, n_tokens, scalars).0),
    ensures
        embed_lookup_q4_seen(
            rt,
            (#[trigger] embed_lookup_q4_step(rt, bank, token_ids, out, vocab, hidden, group_size, n_tokens, scalars)).0,
            bank,
            token_ids,
            out,
            vocab,
            hidden,
            group_size,
            n_tokens,
            scalars,
        ),
{
    let t = embed_lookup_q4_step(rt, bank, token_ids, out, vocab, hidden, group_size, n_tokens, scalars).0;
    let l = dispatch(rt, t);
    let shape = QuantShape { rows: vocab, cols: hidden, group_size };
    lemma_table(rt, bank, shape, "embed_lookup_q4"@);
    let head = seq![
        at(bank.packed, 0),
        at(bank.scales, 1),
        at(bank.zeros, 2),
        at(token_ids, 3),
        at(out, 4),
    ];
    reveal_with_fuel(rising, 6);
    assert(n_tokens * hidden > 0) by (nonlinear_arith)
        requires
            n_tokens > 0,
            hidden > 0,
    ;
    lemma_headed_1d(rt, "embed_lookup_q4"@, (n_tokens * hidden) as usize, head, scalars, 5);
    reveal(carried);
    assert(carries(l, head[0]) && carries(l, head[1]) && carries(l, head[2]));
    assert(carries(l, head[3]) && carries(l, head[4]));
    let o = &out;
    let w = seq![("out", o)];
    let r = seq![
        ("packed", &bank.packed),
        ("scales", &bank.scales),
        ("zeros", &bank.zeros),
        ("token_ids", &token_ids),
    ];
    lemma_apart("embed_lookup_q4"@, w, r);
    assert(w[0].1 == o && r[0].1 == bank.packed && r[3].1 == token_ids);
    lemma_room(rt, token_ids, n_tokens as int, 4, "embed_lookup_q4 token_ids"@);
    lemma_room(rt, out, n_tokens * hidden, 4, "embed_lookup_q4 out"@);
}

/// A lookup of tokens: the bank from slot 0 on, the tokens in slot 3, the output in
/// slot 4, a thread for each element of it.
pub open spec fn embed_lookup_q4_mlx_seen(
    before: RuntimeState,
    after: RuntimeState,
    bank: Q4MlxBankAt,
    token_ids: Storage,
    out: Storage,
    vocab: u32,
    hidden: u32,
    group_size: u32,
    n_tokens: u32,
    scalars: Seq<Bind>,
) -> bool {
    let l = dispatch(before, after);
    &&& ran(before, after, "embed_lookup_q4_mlx"@)
    &&& gets_bank(l, 0, bank)
    &&& l.gets(3, token_ids, 0)
    &&& l.gets(4, out, 0)
    &&& carried(l, scalars)
    &&& covers(l, n_tokens * hidden)
    &&& bank_room(before, bank, QuantShape { rows: vocab, cols: hidden, group_size })
    &&& has_room(before, token_ids, n_tokens * 4)
    &&& has_room(before, out, n_tokens * hidden * 4)
    &&& out.slab.id != token_ids.slab.id
    &&& out.slab.id != bank.packed.slab.id
}

/// An accepted lookup hands the bank, the tokens and the output to the kernel in their
/// slots.
#[verifier::rlimit(40)]
pub broadcast proof fn law_embed_lookup_q4_mlx(
    rt: RuntimeState,
    bank: Q4MlxBankAt,
    token_ids: Storage,
    out: Storage,
    vocab: u32,
    hidden: u32,
    group_size: u32,
    n_tokens: u32,
    scalars: Seq<Bind>,
)
    requires
        n_tokens > 0 && hidden > 0,
        from_slot(scalars, 5),
        embed_lookup_q4_mlx_step(rt, bank, token_ids, out, vocab, hidden, group_size, n_tokens, scalars).1 is None,
        in_view(rt, embed_lookup_q4_mlx_step(rt, bank, token_ids, out, vocab, hidden, group_size, n_tokens, scalars).0),
    ensures
        embed_lookup_q4_mlx_seen(
            rt,
            (#[trigger] embed_lookup_q4_mlx_step(rt, bank, token_ids, out, vocab, hidden, group_size, n_tokens, scalars)).0,
            bank,
            token_ids,
            out,
            vocab,
            hidden,
            group_size,
            n_tokens,
            scalars,
        ),
{
    let t = embed_lookup_q4_mlx_step(rt, bank, token_ids, out, vocab, hidden, group_size, n_tokens, scalars).0;
    let l = dispatch(rt, t);
    let shape = QuantShape { rows: vocab, cols: hidden, group_size };
    lemma_bank(rt, bank, shape, "embed_lookup_q4_mlx"@);
    let head = seq![
        at(bank.packed, 0),
        at(bank.scales_biases, 1),
        at(bank.scales_biases, 2),
        at(token_ids, 3),
        at(out, 4),
    ];
    reveal_with_fuel(rising, 6);
    assert(n_tokens * hidden > 0) by (nonlinear_arith)
        requires
            n_tokens > 0,
            hidden > 0,
    ;
    lemma_headed_1d(rt, "embed_lookup_q4_mlx"@, (n_tokens * hidden) as usize, head, scalars, 5);
    reveal(carried);
    assert(carries(l, head[0]) && carries(l, head[1]) && carries(l, head[2]));
    assert(carries(l, head[3]) && carries(l, head[4]));
    let o = &out;
    let w = seq![("out", o)];
    let r = seq![
        ("packed", &bank.packed),
        ("scales_biases", &bank.scales_biases),
        ("token_ids", &token_ids),
    ];
    lemma_apart("embed_lookup_q4_mlx"@, w, r);
    assert(w[0].1 == o && r[0].1 == bank.packed && r[2].1 == token_ids);
    lemma_room(rt, token_ids, n_tokens as int, 4, "embed_lookup_q4_mlx token_ids"@);
    lemma_room(rt, out, n_tokens * hidden, 4, "embed_lookup_q4_mlx out"@);
}

/// Byte matrices multiplied into floats: A, B and C in slots 0 to 2, the extents and
/// the tile counts behind them; in slot 8 the column scales, or C where there are
/// none; in slot 9 the scale of A; in slot 10 whether there are column scales.
pub open spec fn i8_seen(
    before: RuntimeState,
    after: RuntimeState,
    a: Storage,
    b: Storage,
    c: Storage,
    m: u32,
    n: u32,
    k: u32,
    a_scale: u32,
    b_scale: Option<Storage>,
) -> bool {
    let l = dispatch(before, after);
    &&& ran(before, after, "matmul2d_tensorops_i8_f32"@)
    &&& l.gets(0, a, 0)
    &&& l.gets(1, b, 0)
    &&& l.gets(2, c, 0)
    &&& l.reads(3, m)
    &&& l.reads(4, n)
    &&& l.reads(5, k)
    &&& l.reads(6, l.word(6))
    &&& l.reads(7, l.word(7))
    &&& n <= l.word(6) * 64
    &&& (l.word(6) - 1) * 64 < n
    &&& m <= l.word(7) * 128
    &&& (l.word(7) - 1) * 128 < m
    &&& l.groups.width == l.word(6) * l.word(7)
    &&& l.flat()
    &&& l.threads.width == 128
    &&& match b_scale {
        Some(s) => l.gets(8, s, 0) && has_room(before, s, n * 4) && l.reads(10, 1) && c.slab.id
            != s.slab.id,
        None => l.gets(8, c, 0) && l.reads(10, 0),
    }
    &&& l.reads(9, a_scale)
    &&& has_room(before, a, m * k)
    &&& has_room(before, b, k * n)
    &&& has_room(before, c, m * n * 4)
    &&& c.slab.id != a.slab.id
    &&& c.slab.id != b.slab.id
    &&& 0 < m && 0 < n && 0 < k <= 131072
}

/// An accepted multiplication of byte matrices hands each operand to the kernel in its
/// slot.
#[verifier::rlimit(40)]
pub broadcast proof fn law_i8(
    rt: RuntimeState,
    a: Storage,
    b: Storage,
    c: Storage,
    m: u32,
    n: u32,
    k: u32,
    a_scale: u32,
    b_scale: Option<Storage>,
)
    requires
        gemm_i8_dequant_step(rt, a, b, c, m, n, k, a_scale, b_scale).1 is None,
        in_view(rt, gemm_i8_dequant_step(rt, a, b, c, m, n, k, a_scale, b_scale).0),
    ensures
        i8_seen(
            rt,
            (#[trigger] gemm_i8_dequant_step(rt, a, b, c, m, n, k, a_scale, b_scale)).0,
            a,
            b,
            c,
            m,
            n,
            k,
            a_scale,
            b_scale,
        ),
{
    let t = gemm_i8_dequant_step(rt, a, b, c, m, n, k, a_scale, b_scale).0;
    let l = dispatch(rt, t);
    crate::sizes::lemma_ceil_div_covers(n as int, 64);
    crate::sizes::lemma_ceil_div_covers(m as int, 128);
    let x = ceil_div(n as int, 64);
    let y = ceil_div(m as int, 128);
    assert(0 < x * y <= m * n) by (nonlinear_arith)
        requires
            0 < x <= n,
            0 < y <= m,
    ;
    let head = i8_binds(a, b, c, m, n, k, a_scale, b_scale);
    let f = |p: Pipeline| 128usize;
    lemma_kernel_groups(
        rt,
        "matmul2d_tensorops_i8_f32"@,
        head,
        None,
        (x * y) as usize,
        1,
        f,
    );
    reveal_with_fuel(rising, 12);
    lemma_carried(l, head);
    reveal(carried);
    assert(carries(l, head[0]) && carries(l, head[1]) && carries(l, head[2]));
    assert(carries(l, head[3]) && carries(l, head[4]) && carries(l, head[5]));
    assert(carries(l, head[6]) && carries(l, head[7]) && carries(l, head[8]));
    assert(carries(l, head[9]) && carries(l, head[10]));
    let o = &c;
    let w = seq![("c", o)];
    match b_scale {
        Some(sc) => {
            let r = seq![("a", &a), ("b", &b), ("b_scale", &sc)];
            lemma_apart("gemm_i8_dequant"@, w, r);
            assert(w[0].1 == o && r[0].1 == a && r[1].1 == b && r[2].1 == sc);
            lemma_room(rt, sc, n as int, 4, "gemm_i8_dequant b_scale"@);
        },
        None => {
            let r = seq![("a", &a), ("b", &b)];
            lemma_apart("gemm_i8_dequant"@, w, r);
            assert(w[0].1 == o && r[0].1 == a && r[1].1 == b);
        },
    }
    lemma_room(rt, a, m * k, 1, "gemm_i8_dequant a"@);
    lemma_room(rt, b, k * n, 1, "gemm_i8_dequant b"@);
    lemma_room(rt, c, m * n, 4, "gemm_i8_dequant c"@);
}


// --------------------------------------------------------------- row kernels --

/// Nibble weights multiplied by a vector: weights, scales, zero points, vector and
/// output in slots 0 to 4.
pub open spec fn q4_seen(
    before: RuntimeState,
    after: RuntimeState,
    bank: Q4BankAt,
    x: Storage,
    y: Storage,
    shape: QuantShape,
    tiled: bool,
    scalars: Seq<Bind>,
) -> bool {
    let l = dispatch(before, after);
    &&& ran(
        before,
        after,
        if tiled {
            "gemv_q4_tiled"@
        } else {
            "gemv_q4"@
        },
    )
    &&& l.gets(0, bank.packed, 0)
    &&& l.gets(1, bank.scales, 0)
    &&& l.gets(2, bank.zeros, 0)
    &&& l.gets(3, x, 0)
    &&& l.gets(4, y, 0)
    &&& carried(l, scalars)
    &&& if tiled {
        l.flat() && l.groups.width == shape.rows && l.threads.width == 128
    } else {
        eight_rows_each(l, shape.rows as int)
    }
    &&& table_room(before, bank, shape)
    &&& has_room(before, x, shape.cols * 4)
    &&& has_room(before, y, shape.rows * 4)
    &&& y.slab.id != bank.packed.slab.id
    &&& y.slab.id != bank.scales.slab.id
    &&& y.slab.id != bank.zeros.slab.id
    &&& y.slab.id != x.slab.id
}

/// An accepted multiplication of nibble weights hands each operand to the kernel in its
/// slot.
#[verifier::rlimit(40)]
pub broadcast proof fn law_q4(
    rt: RuntimeState,
    bank: Q4BankAt,
    x: Storage,
    y: Storage,
    shape: QuantShape,
    tiled: bool,
    scalars: Seq<Bind>,
)
    requires
        shape.rows > 0,
        from_slot(scalars, 5),
        gemv_q4_step(rt, bank, x, y, shape, tiled, scalars).1 is None,
        in_view(rt, gemv_q4_step(rt, bank, x, y, shape, tiled, scalars).0),
    ensures
        q4_seen(
            rt,
            (#[trigger] gemv_q4_step(rt, bank, x, y, shape, tiled, scalars)).0,
            bank,
            x,
            y,
            shape,
            tiled,
            scalars,
        ),
{
    let t = gemv_q4_step(rt, bank, x, y, shape, tiled, scalars).0;
    let l = dispatch(rt, t);
    let entry = q4_entry(tiled);
    lemma_table(rt, bank, shape, entry);
    crate::sizes::lemma_ceil_div_covers(shape.rows as int, 8);
    let head = seq![
        at(bank.packed, 0),
        at(bank.scales, 1),
        at(bank.zeros, 2),
        at(x, 3),
        at(y, 4),
    ];
    let groups = if tiled {
        shape.rows as usize
    } else {
        simd_groups(shape.rows)
    };
    let lanes = if tiled {
        128usize
    } else {
        64usize
    };
    lemma_named_launch(
        rt,
        entry,
        head + scalars,
        None,
        crate::device::size3(groups, 1, 1),
        crate::device::size3(lanes, 1, 1),
    );
    reveal_with_fuel(rising, 6);
    lemma_carried_joined(l, head, scalars, 5);
    reveal(carried);
    assert(carries(l, head[0]) && carries(l, head[1]) && carries(l, head[2]));
    assert(carries(l, head[3]) && carries(l, head[4]));
    let o = &y;
    let w = seq![("y", o)];
    let r = seq![
        ("packed", &bank.packed),
        ("scales", &bank.scales),
        ("zeros", &bank.zeros),
        ("x", &x),
    ];
    lemma_apart("gemv_q4"@, w, r);
    assert(w[0].1 == o && r[0].1 == bank.packed && r[1].1 == bank.scales && r[2].1 == bank.zeros
        && r[3].1 == x);
    lemma_room(rt, x, shape.cols as int, 4, entry + " x"@);
    lemma_room(rt, y, shape.rows as int, 4, entry + " y"@);
}

/// One bank multiplied by rows: the tiled kernel has a group for each row, the others
/// a lane, and these keep the vector in threadgroup memory.
pub open spec fn row_seen(
    before: RuntimeState,
    after: RuntimeState,
    bank: Q4MlxBankAt,
    x: Storage,
    y: Storage,
    shape: QuantShape,
    variant: Q4MlxRowVariant,
    scalars: Seq<Bind>,
) -> bool {
    let l = dispatch(before, after);
    &&& ran(
        before,
        after,
        match variant {
            Q4MlxRowVariant::Standard => "gemv_q4_mlx"@,
            Q4MlxRowVariant::Wide => "gemv_q4_mlx_wide"@,
            Q4MlxRowVariant::Tiled => "gemv_q4_mlx_tiled"@,
        },
    )
    &&& gets_bank(l, 0, bank)
    &&& l.gets(3, x, 0)
    &&& l.gets(4, y, 0)
    &&& carried(l, scalars)
    &&& l.flat()
    &&& if variant == Q4MlxRowVariant::Tiled {
        l.groups.width == shape.rows && l.threads.width == 128
    } else {
        &&& 1 <= l.threads.width <= 128
        &&& shape.rows <= l.groups.width * l.threads.width
        &&& (l.groups.width - 1) * l.threads.width < shape.rows
        &&& l.scene.memory.contains_key(0)
        &&& l.scene.memory[0] == 4 * shape.cols || 4 * shape.cols > usize::MAX
        &&& l.scene.memory[0] <= before.info.max_threadgroup_memory
    }
    &&& bank_room(before, bank, shape)
    &&& has_room(before, x, shape.cols * 4)
    &&& has_room(before, y, shape.rows * 4)
    &&& y.slab.id != bank.packed.slab.id
    &&& y.slab.id != bank.scales_biases.slab.id
    &&& y.slab.id != x.slab.id
}

/// An accepted multiplication by rows hands each operand to the kernel in its slot and
/// reaches every row.
#[verifier::rlimit(40)]
pub broadcast proof fn law_rows_of_bank(
    rt: RuntimeState,
    bank: Q4MlxBankAt,
    x: Storage,
    y: Storage,
    shape: QuantShape,
    variant: Q4MlxRowVariant,
    scalars: Seq<Bind>,
)
    requires
        shape.rows > 0,
        from_slot(scalars, 5),
        gemv_q4_mlx_step(rt, bank, x, y, shape, variant, scalars).1 is None,
        in_view(rt, gemv_q4_mlx_step(rt, bank, x, y, shape, variant, scalars).0),
    ensures
        row_seen(
            rt,
            (#[trigger] gemv_q4_mlx_step(rt, bank, x, y, shape, variant, scalars)).0,
            bank,
            x,
            y,
            shape,
            variant,
            scalars,
        ),
{
    let t = gemv_q4_mlx_step(rt, bank, x, y, shape, variant, scalars).0;
    let l = dispatch(rt, t);
    let entry = variant.kernel();
    lemma_bank(rt, bank, shape, entry);
    let yo = &y;
    let w = seq![("y", yo)];
    let r = seq![
        ("packed", &bank.packed),
        ("scales_biases", &bank.scales_biases),
        ("x", &x),
    ];
    lemma_apart("gemv_q4_mlx"@, w, r);
    assert(w[0].1 == yo && r[0].1 == bank.packed && r[1].1 == bank.scales_biases && r[2].1
        == x);
    let head = seq![
        at(bank.packed, 0),
        at(bank.scales_biases, 1),
        at(bank.scales_biases, 2),
        at(x, 3),
        at(y, 4),
    ];
    assert(mlx_binds(bank, 0) + seq![at(x, 3), at(y, 4)] =~= head);
    reveal_with_fuel(rising, 6);
    let p = rt.piped(entry).1->Ok_0;
    assert(rt.piped(entry).0.info == rt.info) by {
        reveal(RuntimeState::piped);
    }
    let t_lanes = row_kernel_lanes(p.max_threads, shape.rows);
    crate::sizes::lemma_pow2_floor(most(least(least(p.max_threads as int, 128), 128), 1));
    crate::sizes::lemma_ceil_div_covers(shape.rows as int, t_lanes as int);
    if variant == Q4MlxRowVariant::Tiled {
        lemma_named_launch(
            rt,
            entry,
            head + scalars,
            None,
            crate::device::size3(shape.rows as usize, 1, 1),
            crate::device::size3(128, 1, 1),
        );
    } else {
        lemma_named_launch(
            rt,
            entry,
            head + scalars,
            Some((0, x_cache_bytes(shape.cols))),
            crate::device::size3(
                ceil_div(shape.rows as int, t_lanes as int) as usize,
                1,
                1,
            ),
            crate::device::size3(t_lanes, 1, 1),
        );
    }
    lemma_carried_joined(l, head, scalars, 5);
    reveal(carried);
    assert(carries(l, head[0]) && carries(l, head[1]) && carries(l, head[2]));
    assert(carries(l, head[3]) && carries(l, head[4]));
    lemma_room(rt, x, shape.cols as int, 4, entry + " x"@);
    lemma_room(rt, y, shape.rows as int, 4, entry + " y"@);
}

} // verus!
