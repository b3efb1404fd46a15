//! What the kernels that take one tensor to another get from an accepted call:
//! casts, copies and the soft cap.

use vstd::prelude::*;

use crate::dispatch::Bind;
use crate::gemm::cast::{
    bf16_step, cast_fresh_step, cast_into_step, cast_to_bf16_step, elementwise_binds,
    elementwise_step,
};
use crate::gemm::laws::within;
use crate::gemm::operand::{whole, Operand};
use crate::nn::laws::lemma_kernel_1d;
use crate::ops::{softcap_binds, softcap_step};
use crate::seen::{
    carried, carries, covers, dispatch, in_view, launches, lemma_allocated_quiet, lemma_carried,
    lemma_launches_after_quiet, lemma_quietly_on, lemma_starts_on, quietly, ran, rising, starts,
    steady, Launch,
};
use crate::state::RuntimeState;
use crate::tensor::copy::{copy_step, deep_copy_step, same_place};
use crate::tensor::{BufferKind, DType, Storage};

verus! {

/// A kernel takes every element of the tensor in slot 0 to the one in slot 1, of
/// the given type; their number is in slot 2.
pub open spec fn mapped_seen(
    before: RuntimeState,
    after: RuntimeState,
    kernel: Seq<char>,
    src: Operand,
    dst: Operand,
) -> bool {
    let l = dispatch(before, after);
    &&& ran(before, after, kernel)
    &&& l.takes(0, src)
    &&& l.takes(1, dst)
    &&& l.reads(2, src.count() as u32)
    &&& covers(l, src.count())
    &&& 0 < src.count() <= u32::MAX
    &&& within(before, src, src.count())
    &&& within(before, dst, src.count())
}

/// An elementwise kernel over `n` elements.
pub proof fn lemma_elementwise(
    rt: RuntimeState,
    kernel: Seq<char>,
    src: Operand,
    dst: Operand,
)
    requires
        0 < src.count() <= u32::MAX,
        elementwise_step(rt, kernel, src, dst, src.count()).1 is None,
        in_view(rt, elementwise_step(rt, kernel, src, dst, src.count()).0),
        within(rt, src, src.count()),
        within(rt, dst, src.count()),
    ensures
        mapped_seen(rt, elementwise_step(rt, kernel, src, dst, src.count()).0, kernel, src, dst),
        starts(rt.ops, elementwise_step(rt, kernel, src, dst, src.count()).0.ops),
        steady(rt, elementwise_step(rt, kernel, src, dst, src.count()).0),
{
    let n = src.count();
    let binds = elementwise_binds(src, dst, n);
    lemma_kernel_1d(rt, kernel, n as usize, binds);
    let l = dispatch(rt, elementwise_step(rt, kernel, src, dst, n).0);
    reveal_with_fuel(rising, 4);
    lemma_carried(l, binds);
    reveal(carried);
    assert(carries(l, binds[0]) && carries(l, binds[1]) && carries(l, binds[2]));
}

/// Elements of a tensor that checks out lie inside its buffer.
proof fn lemma_within(rt: RuntimeState, t: Operand)
    requires
        t.problem() is None,
        t.runtime == rt.id,
    ensures
        within(rt, t, t.count()),
{
}

/// An accepted cast into a tensor takes every float in slot 0 to slot 1.
pub broadcast proof fn law_cast_into(rt: RuntimeState, src: Operand, dst: Operand)
    requires
        cast_into_step(rt, src, dst).1 is None,
        in_view(rt, cast_into_step(rt, src, dst).0),
    ensures
        ({
            let t = (#[trigger] cast_into_step(rt, src, dst)).0;
            &&& mapped_seen(rt, t, "cast_f32_to_bf16"@, src, dst)
            &&& src.dtype == DType::F32
            &&& dst.dtype == DType::BF16
            &&& src.shape == dst.shape
            &&& starts(rt.ops, t.ops)
            &&& steady(rt, t)
        }),
{
    lemma_within(rt, src);
    lemma_within(rt, dst);
    lemma_elementwise(rt, "cast_f32_to_bf16"@, src, dst);
}

/// A fresh tensor dispatches nothing.
pub proof fn lemma_tensor_quiet(
    rt: RuntimeState,
    shape: Seq<usize>,
    dtype: DType,
    kind: BufferKind,
)
    ensures
        quietly(rt.ops, rt.tensor_allocated(shape, dtype, kind).0.ops),
        rt.tensor_allocated(shape, dtype, kind).0.blob == rt.blob,
        steady(rt, rt.tensor_allocated(shape, dtype, kind).0),
        rt.tensor_allocated(shape, dtype, kind).0.ab == rt.ab,
        rt.tensor_allocated(shape, dtype, kind).0.settings == rt.settings,
        rt.tensor_allocated(shape, dtype, kind).1 matches Ok(b) ==> {
            let t = whole(b, shape, dtype, rt.id);
            b.runtime == rt.id && b.nbytes == t.count() * dtype.bytes() && t.problem() is None
        },
{
    broadcast use crate::seen::group_quietly;

    reveal(RuntimeState::tensor_allocated);
    reveal(RuntimeState::allocated);
    let n = (crate::sizes::product(crate::sizes::ints(shape)) * dtype.bytes()) as usize;
    lemma_allocated_quiet(rt, n, kind);
    crate::sizes::lemma_product_nonneg(crate::sizes::ints(shape), shape.len() as int);
    assert(0 <= crate::sizes::product(crate::sizes::ints(shape)) * dtype.bytes());
}

/// A cast into a fresh tensor hands its kernel the source and that tensor.
pub broadcast proof fn law_cast_to_bf16(rt: RuntimeState, src: Operand, kind: BufferKind)
    requires
        cast_to_bf16_step(rt, src, kind).1 is Ok,
        in_view(rt, cast_to_bf16_step(rt, src, kind).0),
    ensures
        ({
            let (t, made) = #[trigger] cast_to_bf16_step(rt, src, kind);
            let dst = whole(made->Ok_0, src.shape, DType::BF16, src.runtime);
            &&& mapped_seen(rt, t, "cast_f32_to_bf16"@, src, dst)
            &&& src.dtype == DType::F32
            &&& starts(rt.ops, t.ops)
            &&& steady(rt, t)
        }),
{
    let s = rt.tensor_allocated(src.shape, DType::BF16, kind).0;
    let b = rt.tensor_allocated(src.shape, DType::BF16, kind).1->Ok_0;
    let t = cast_to_bf16_step(rt, src, kind).0;
    lemma_tensor_quiet(rt, src.shape, DType::BF16, kind);
    law_cast_into(s, src, whole(b, src.shape, DType::BF16, rt.id));
    lemma_mapped_later(
        rt,
        s,
        t,
        "cast_f32_to_bf16"@,
        src,
        whole(b, src.shape, DType::BF16, rt.id),
    );
}

/// Quiet operations before a dispatch change nothing of it.
proof fn lemma_mapped_later(
    rt: RuntimeState,
    s: RuntimeState,
    t: RuntimeState,
    kernel: Seq<char>,
    src: Operand,
    dst: Operand,
)
    requires
        quietly(rt.ops, s.ops),
        starts(s.ops, t.ops),
        steady(rt, s),
        steady(s, t),
        mapped_seen(s, t, kernel, src, dst),
    ensures
        mapped_seen(rt, t, kernel, src, dst),
        starts(rt.ops, t.ops),
        steady(rt, t),
{
    lemma_launches_after_quiet(rt, s, t);
    assert(starts(rt.ops, s.ops)) by {
        reveal(quietly);
        reveal(starts);
    }
    lemma_starts_on(rt.ops, s.ops, t.ops);
}

/// So does a cast to another type.
pub broadcast proof fn law_cast_fresh(
    rt: RuntimeState,
    src: Operand,
    dtype: DType,
    problem: Option<Seq<char>>,
    kernel: Seq<char>,
)
    requires
        problem is None ==> src.problem() is None && src.runtime == rt.id,
        src.count() > 0,
        cast_fresh_step(rt, src, dtype, problem, kernel).1 is Ok,
        in_view(rt, cast_fresh_step(rt, src, dtype, problem, kernel).0),
    ensures
        ({
            let (t, made) = #[trigger] cast_fresh_step(rt, src, dtype, problem, kernel);
            mapped_seen(rt, t, kernel, src, whole(made->Ok_0, src.shape, dtype, src.runtime))
        }),
{
    let s = rt.tensor_allocated(src.shape, dtype, BufferKind::Cold).0;
    let b = rt.tensor_allocated(src.shape, dtype, BufferKind::Cold).1->Ok_0;
    let t = cast_fresh_step(rt, src, dtype, problem, kernel).0;
    let dst = whole(b, src.shape, dtype, rt.id);
    lemma_tensor_quiet(rt, src.shape, dtype, BufferKind::Cold);
    lemma_within(s, src);
    lemma_within(s, dst);
    lemma_elementwise(s, kernel, src, dst);
    lemma_mapped_later(rt, s, t, kernel, src, dst);
}

/// An accepted copy takes every element in slot 0 to slot 1, whole words of four
/// bytes or of two; one onto itself asks nothing of the device.
pub broadcast proof fn law_copy(rt: RuntimeState, src: Operand, dst: Operand)
    requires
        src.count() > 0,
        copy_step(rt, src, dst).1 is None,
        in_view(rt, copy_step(rt, src, dst).0),
    ensures
        ({
            let t = (#[trigger] copy_step(rt, src, dst)).0;
            &&& src.dtype == dst.dtype
            &&& src.count() == dst.count()
            &&& src.buffer.slab.id == dst.buffer.slab.id && src.byte_offset == dst.byte_offset
                ==> t == rt
            &&& src.buffer.slab.id != dst.buffer.slab.id || src.byte_offset != dst.byte_offset
                ==> {
                &&& mapped_seen(
                    rt,
                    t,
                    if src.dtype == DType::F32 {
                        "copy_f32"@
                    } else {
                        "copy_bf16"@
                    },
                    src,
                    dst,
                )
                &&& starts(rt.ops, t.ops)
                &&& steady(rt, t)
            }
        }),
{
    lemma_within(rt, src);
    lemma_within(rt, dst);
    if !same_place(src, dst) {
        lemma_elementwise(rt, src.dtype.copy_kernel(), src, dst);
    }
}

/// The soft cap: from slot 0 to slot 1, the cap in slot 2, the count in slot 3.
pub open spec fn softcap_seen(
    before: RuntimeState,
    after: RuntimeState,
    pre: Operand,
    post: Operand,
    softcap: u32,
) -> bool {
    let l = dispatch(before, after);
    &&& ran(before, after, "softcap_f32"@)
    &&& l.takes(0, pre)
    &&& l.takes(1, post)
    &&& l.reads(2, softcap)
    &&& l.reads(3, pre.count() as u32)
    &&& covers(l, pre.count())
    &&& pre.count() <= u32::MAX
    &&& within(before, pre, pre.count())
    &&& within(before, post, pre.count())
    &&& pre.dtype == DType::F32
}

/// An accepted soft cap hands its kernel the tensor, a fresh one and the cap.
pub broadcast proof fn law_softcap(rt: RuntimeState, pre: Operand, softcap: u32)
    requires
        pre.count() > 0,
        softcap_step(rt, pre, softcap).1 is Ok,
        in_view(rt, softcap_step(rt, pre, softcap).0),
    ensures
        ({
            let (t, made) = #[trigger] softcap_step(rt, pre, softcap);
            softcap_seen(rt, t, pre, whole(made->Ok_0, pre.shape, DType::F32, rt.id), softcap)
        }),
{
    let s = rt.tensor_allocated(pre.shape, DType::F32, BufferKind::Cold).0;
    let b = rt.tensor_allocated(pre.shape, DType::F32, BufferKind::Cold).1->Ok_0;
    let t = softcap_step(rt, pre, softcap).0;
    let post = whole(b, pre.shape, DType::F32, rt.id);
    lemma_tensor_quiet(rt, pre.shape, DType::F32, BufferKind::Cold);
    lemma_within(rt, pre);
    lemma_within(rt, post);
    let binds = softcap_binds(pre, post, softcap);
    lemma_kernel_1d(s, "softcap_f32"@, pre.count() as usize, binds);
    lemma_launches_after_quiet(rt, s, t);
    let l = dispatch(rt, t);
    reveal_with_fuel(rising, 5);
    lemma_carried(l, binds);
    reveal(carried);
    assert(carries(l, binds[0]) && carries(l, binds[1]) && carries(l, binds[2]) && carries(
        l,
        binds[3],
    ));
}

// ------------------------------------------------------------- narrowing ---

/// A multiplicand as bf16: itself where it is bf16, else a cast of it.
pub open spec fn narrowed(
    before: RuntimeState,
    after: RuntimeState,
    t: Operand,
    x: Operand,
) -> bool {
    &&& x.shape == t.shape
    &&& x.dtype == DType::BF16
    &&& t.dtype == DType::BF16 ==> x == t && after == before
    &&& t.dtype == DType::F32 ==> mapped_seen(before, after, "cast_f32_to_bf16"@, t, x)
    &&& t.dtype != DType::F16
}

/// Narrowing that was accepted.
pub proof fn law_narrowed(rt: RuntimeState, t: Operand)
    requires
        bf16_step(rt, t).1 is Ok,
        in_view(rt, bf16_step(rt, t).0),
    ensures
        narrowed(rt, bf16_step(rt, t).0, t, bf16_step(rt, t).1->Ok_0.0),
        starts(rt.ops, bf16_step(rt, t).0.ops),
        steady(rt, bf16_step(rt, t).0),
{
    assert(starts(rt.ops, rt.ops)) by {
        reveal(starts);
    }
    if t.dtype == DType::F32 {
        law_cast_to_bf16(rt, t, BufferKind::Cold);
    }
}

} // verus!
