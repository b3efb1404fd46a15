//! Element-type casts on the device.

use vstd::prelude::*;

use crate::dispatch::{launch_1d, tensor_bind, Bind};
use crate::gemm::operand::{
    foreign_problem, operand, require_own, whole, Operand,
};
use crate::nn::check::{word, word_at};
use crate::runtime::{spans_buffer, GpuRuntime};
use crate::state::RuntimeState;
use crate::tensor::{BufferKind, DType, Storage, Tensor};
use crate::text::{first, join, owned, reports, unless};
use crate::seen::in_view;
use crate::gemm::cast_laws::{law_cast_fresh, law_cast_into, law_cast_to_bf16, mapped_seen};

verus! {

/// Two shapes are equal.
pub fn same_shape(a: &[usize], b: &[usize]) -> (r: bool)
    ensures
        r == (a@ == b@),
{
    if a.len() != b.len() {
        return false;
    }
    let mut i: usize = 0;
    while i < a.len()
        invariant
            i <= a@.len(),
            a@.len() == b@.len(),
            forall|j: int| 0 <= j < i ==> a@[j] == b@[j],
        decreases a@.len() - i,
    {
        if a[i] != b[i] {
            return false;
        }
        i += 1;
    }
    assert(a@ =~= b@);
    true
}

/// The bind of a valid operand.
pub open spec fn operand_bind(t: Operand, index: usize) -> Bind {
    Bind::View { buf: t.buffer, byte_offset: t.byte_offset, runtime: t.runtime, index }
}

/// Binds of an elementwise kernel: source, destination, count.
pub open spec fn elementwise_binds(src: Operand, dst: Operand, n: int) -> Seq<Bind> {
    seq![operand_bind(src, 0), operand_bind(dst, 1), word_at(n as u32, 2)]
}

/// What refuses a source.
pub open spec fn cast_input_problem(rt: u64, src: Operand, dtype: DType) -> Option<Seq<char>> {
    first(
        foreign_problem(rt, src),
        first(
            src.problem(),
            unless(
                src.dtype == dtype && 1 <= src.count() <= u32::MAX,
                "cast requires the declared dtype and 1..=u32::MAX elements"@,
            ),
        ),
    )
}

fn validate_cast_input(rt: u64, src: &Tensor, dtype: DType) -> (r: Result<(), String>)
    ensures
        reports(r, cast_input_problem(rt, operand(*src), dtype)),
{
    require_own(rt, src)?;
    src.validate()?;
    proof {
        crate::tensor::lemma_span(*src);
    }
    if src.dtype != dtype || src.numel() == 0 || src.numel() > u32::MAX as usize {
        return Err(owned("cast requires the declared dtype and 1..=u32::MAX elements"));
    }
    Ok(())
}

/// What refuses a bf16 destination.
pub open spec fn cast_into_problem(rt: u64, src: Operand, dst: Operand) -> Option<Seq<char>> {
    first(
        cast_input_problem(rt, src, DType::F32),
        first(
            dst.problem(),
            unless(
                dst.dtype == DType::BF16 && src.shape == dst.shape && src.runtime == dst.runtime
                    && !src.meets(dst),
                "cast destination must match shape/runtime, be bf16, and not overlap source"@,
            ),
        ),
    )
}

/// Effect of an elementwise kernel over `n` elements.
pub open spec fn elementwise_step(
    rt: RuntimeState,
    kernel: Seq<char>,
    src: Operand,
    dst: Operand,
    n: int,
) -> (RuntimeState, Option<Seq<char>>) {
    rt.kernel_1d(kernel, n as usize, elementwise_binds(src, dst, n))
}

pub(crate) fn elementwise(rt: &mut GpuRuntime, kernel: &str, src: &Tensor, dst: &Tensor, n: usize) -> (r:
    Result<(), String>)
    requires
        old(rt).inv(),
    ensures
        final(rt).inv(),
        ({
            let (s, problem) = elementwise_step(
                old(rt)@,
                kernel@,
                operand(*src),
                operand(*dst),
                n as int,
            );
            final(rt)@ == s && reports(r, problem)
        }),
{
    let p = rt.pipeline(kernel)?;
    let binds = [tensor_bind(src, 0), tensor_bind(dst, 1), word(n as u32, 2)];
    assert(binds@ =~= elementwise_binds(operand(*src), operand(*dst), n as int));
    launch_1d(rt, &p, n, &binds)
}

/// Effect of [`cast_f32_to_bf16_into`].
pub open spec fn cast_into_step(rt: RuntimeState, src: Operand, dst: Operand) -> (
    RuntimeState,
    Option<Seq<char>>,
) {
    match cast_into_problem(rt.id, src, dst) {
        Some(m) => (rt, Some(m)),
        None => elementwise_step(rt, "cast_f32_to_bf16"@, src, dst, src.count()),
    }
}

/// Casts f32 into an existing bf16 tensor.
pub fn cast_f32_to_bf16_into(rt: &mut GpuRuntime, src: &Tensor, dst: &Tensor) -> (r: Result<
    (),
    String,
>)
    requires
        old(rt).inv(),
    ensures
        final(rt).inv(),
        ({
            let (s, problem) = cast_into_step(old(rt)@, operand(*src), operand(*dst));
            final(rt)@ == s && reports(r, problem)
        }),
        r is Ok && in_view(old(rt)@, final(rt)@) ==> mapped_seen(
            old(rt)@,
            final(rt)@,
            "cast_f32_to_bf16"@,
            operand(*src),
            operand(*dst),
        ),
{
    broadcast use law_cast_into;

    let id: u64 = rt.id();
    validate_cast_input(id, src, DType::F32)?;
    dst.validate()?;
    if dst.dtype != DType::BF16 || !same_shape(src.shape.as_slice(), dst.shape.as_slice())
        || src.runtime != dst.runtime || src.overlaps(dst) {
        return Err(
            owned("cast destination must match shape/runtime, be bf16, and not overlap source"),
        );
    }
    let n: usize = src.numel();
    elementwise(rt, "cast_f32_to_bf16", src, dst, n)
}

/// The outcome of a cast: the destination's storage, or the refusal. A
/// destination that the kernel was not run on is retired.
pub open spec fn finished(
    after: (RuntimeState, Option<Seq<char>>),
    made: Storage,
) -> (RuntimeState, Result<Storage, Seq<char>>) {
    match after.1 {
        Some(m) => (after.0.retired(made), Err(m)),
        None => (after.0, Ok(made)),
    }
}

/// Effect of a cast to a fresh bf16 tensor of the given kind.
pub open spec fn cast_to_bf16_step(rt: RuntimeState, src: Operand, kind: BufferKind) -> (
    RuntimeState,
    Result<Storage, Seq<char>>,
) {
    match cast_input_problem(rt.id, src, DType::F32) {
        Some(m) => (rt, Err(m)),
        None => {
            let (s, a) = rt.tensor_allocated(src.shape, DType::BF16, kind);
            match a {
                Err(m) => (s, Err(m)),
                Ok(b) => finished(
                    cast_into_step(s, src, whole(b, src.shape, DType::BF16, rt.id)),
                    b,
                ),
            }
        },
    }
}

/// `r` is the cast that `expected` describes.
pub open spec fn cast_outcome(
    r: Result<Tensor, String>,
    expected: Result<Storage, Seq<char>>,
    src: Operand,
    dtype: DType,
) -> bool {
    match expected {
        Ok(b) => r is Ok && spans_buffer(r->Ok_0, b, src.shape, dtype, src.runtime),
        Err(m) => r is Err && r->Err_0@ == m,
    }
}

/// Casts f32 to a fresh cold bf16 tensor.
pub fn cast_f32_to_bf16(rt: &mut GpuRuntime, src: &Tensor) -> (r: Result<Tensor, String>)
    requires
        old(rt).inv(),
    ensures
        final(rt).inv(),
        ({
            let (s, e) = cast_to_bf16_step(old(rt)@, operand(*src), BufferKind::Cold);
            final(rt)@ == s && cast_outcome(r, e, operand(*src), DType::BF16)
        }),
        r is Ok && in_view(old(rt)@, final(rt)@) ==> mapped_seen(
            old(rt)@,
            final(rt)@,
            "cast_f32_to_bf16"@,
            operand(*src),
            operand(r->Ok_0),
        ),
{
    broadcast use law_cast_to_bf16;

    let id: u64 = rt.id();
    validate_cast_input(id, src, DType::F32)?;
    let dst = rt.alloc_tensor_bf16(src.shape.as_slice())?;
    assert(operand(dst) =~= whole(dst.buffer@, src.shape@, DType::BF16, id));
    match cast_f32_to_bf16_into(rt, src, &dst) {
        Ok(()) => Ok(dst),
        Err(e) => {
            rt.recycle_buffer(dst.buffer);
            Err(e)
        },
    }
}

/// Casts f32 to a fresh hot bf16 tensor, for storage that stays resident.
pub fn cast_f32_to_bf16_hot(rt: &mut GpuRuntime, src: &Tensor) -> (r: Result<Tensor, String>)
    requires
        old(rt).inv(),
    ensures
        final(rt).inv(),
        ({
            let (s, e) = cast_to_bf16_step(old(rt)@, operand(*src), BufferKind::Hot);
            final(rt)@ == s && cast_outcome(r, e, operand(*src), DType::BF16)
        }),
        r is Ok && in_view(old(rt)@, final(rt)@) ==> mapped_seen(
            old(rt)@,
            final(rt)@,
            "cast_f32_to_bf16"@,
            operand(*src),
            operand(r->Ok_0),
        ),
{
    broadcast use law_cast_to_bf16;

    let id: u64 = rt.id();
    validate_cast_input(id, src, DType::F32)?;
    let dst = rt.alloc_tensor_bf16_hot(src.shape.as_slice())?;
    assert(operand(dst) =~= whole(dst.buffer@, src.shape@, DType::BF16, id));
    match cast_f32_to_bf16_into(rt, src, &dst) {
        Ok(()) => Ok(dst),
        Err(e) => {
            rt.recycle_buffer(dst.buffer);
            Err(e)
        },
    }
}

/// Effect of a cast between other element types: refusals, then a fresh cold
/// destination, then the kernel.
pub open spec fn cast_fresh_step(
    rt: RuntimeState,
    src: Operand,
    dtype: DType,
    problem: Option<Seq<char>>,
    kernel: Seq<char>,
) -> (RuntimeState, Result<Storage, Seq<char>>) {
    match problem {
        Some(m) => (rt, Err(m)),
        None => {
            let (s, a) = rt.tensor_allocated(src.shape, dtype, BufferKind::Cold);
            match a {
                Err(m) => (s, Err(m)),
                Ok(b) => finished(
                    if src.count() > u32::MAX {
                        (s, Some(kernel + ": element count exceeds uint indexing"@))
                    } else {
                        elementwise_step(
                            s,
                            kernel,
                            src,
                            whole(b, src.shape, dtype, rt.id),
                            src.count(),
                        )
                    },
                    b,
                ),
            }
        },
    }
}

fn cast_between(rt: &mut GpuRuntime, src: &Tensor, dst: Tensor, kernel: &str) -> (r: Result<
    Tensor,
    String,
>)
    requires
        old(rt).inv(),
        src.valid(),
    ensures
        final(rt).inv(),
        ({
            let (s, e) = finished(
                if operand(*src).count() > u32::MAX {
                    (old(rt)@, Some(kernel@ + ": element count exceeds uint indexing"@))
                } else {
                    elementwise_step(
                        old(rt)@,
                        kernel@,
                        operand(*src),
                        operand(dst),
                        operand(*src).count(),
                    )
                },
                dst.buffer@,
            );
            &&& final(rt)@ == s
            &&& match e {
                Ok(_) => r == Ok::<Tensor, String>(dst),
                Err(m) => r is Err && r->Err_0@ == m,
            }
        }),
{
    proof {
        crate::tensor::lemma_span(*src);
    }
    let n: usize = src.numel();
    if n > u32::MAX as usize {
        rt.recycle_buffer(dst.buffer);
        return Err(join(kernel, ": element count exceeds uint indexing"));
    }
    match elementwise(rt, kernel, src, &dst, n) {
        Ok(()) => Ok(dst),
        Err(e) => {
            rt.recycle_buffer(dst.buffer);
            Err(e)
        },
    }
}

/// Casts bf16 to a fresh cold f32 tensor.
pub fn cast_bf16_to_f32(rt: &mut GpuRuntime, src: &Tensor) -> (r: Result<Tensor, String>)
    requires
        old(rt).inv(),
    ensures
        final(rt).inv(),
        ({
            let (s, e) = cast_fresh_step(
                old(rt)@,
                operand(*src),
                DType::F32,
                cast_input_problem(old(rt)@.id, operand(*src), DType::BF16),
                "cast_bf16_to_f32"@,
            );
            final(rt)@ == s && cast_outcome(r, e, operand(*src), DType::F32)
        }),
        r is Ok && in_view(old(rt)@, final(rt)@) ==> mapped_seen(
            old(rt)@,
            final(rt)@,
            "cast_bf16_to_f32"@,
            operand(*src),
            operand(r->Ok_0),
        ),
{
    broadcast use law_cast_fresh;

    let id: u64 = rt.id();
    validate_cast_input(id, src, DType::BF16)?;
    let dst = rt.alloc_tensor_f32(src.shape.as_slice())?;
    assert(operand(dst) =~= whole(dst.buffer@, src.shape@, DType::F32, id));
    cast_between(rt, src, dst, "cast_bf16_to_f32")
}

/// What refuses a source of a half-precision cast.
pub open spec fn half_source_problem(
    rt: u64,
    src: Operand,
    dtype: DType,
    message: Seq<char>,
) -> Option<Seq<char>> {
    first(foreign_problem(rt, src), first(src.problem(), unless(src.dtype == dtype, message)))
}

/// Casts f32 to a fresh cold f16 tensor.
pub fn cast_f32_to_f16(rt: &mut GpuRuntime, src: &Tensor) -> (r: Result<Tensor, String>)
    requires
        old(rt).inv(),
    ensures
        final(rt).inv(),
        ({
            let (s, e) = cast_fresh_step(
                old(rt)@,
                operand(*src),
                DType::F16,
                half_source_problem(
                    old(rt)@.id,
                    operand(*src),
                    DType::F32,
                    "cast_f32_to_f16 expects an f32 source"@,
                ),
                "cast_f32_to_f16"@,
            );
            final(rt)@ == s && cast_outcome(r, e, operand(*src), DType::F16)
        }),
        r is Ok && operand(*src).count() > 0 && in_view(old(rt)@, final(rt)@) ==> mapped_seen(
            old(rt)@,
            final(rt)@,
            "cast_f32_to_f16"@,
            operand(*src),
            operand(r->Ok_0),
        ),
{
    broadcast use law_cast_fresh;

    let id: u64 = rt.id();
    require_own(id, src)?;
    src.validate()?;
    if src.dtype != DType::F32 {
        return Err(owned("cast_f32_to_f16 expects an f32 source"));
    }
    let dst = rt.alloc_tensor_f16(src.shape.as_slice())?;
    assert(operand(dst) =~= whole(dst.buffer@, src.shape@, DType::F16, id));
    cast_between(rt, src, dst, "cast_f32_to_f16")
}

/// Casts f16 to a fresh cold f32 tensor.
pub fn cast_f16_to_f32(rt: &mut GpuRuntime, src: &Tensor) -> (r: Result<Tensor, String>)
    requires
        old(rt).inv(),
    ensures
        final(rt).inv(),
        ({
            let (s, e) = cast_fresh_step(
                old(rt)@,
                operand(*src),
                DType::F32,
                half_source_problem(
                    old(rt)@.id,
                    operand(*src),
                    DType::F16,
                    "cast_f16_to_f32 expects an f16 source"@,
                ),
                "cast_f16_to_f32"@,
            );
            final(rt)@ == s && cast_outcome(r, e, operand(*src), DType::F32)
        }),
        r is Ok && operand(*src).count() > 0 && in_view(old(rt)@, final(rt)@) ==> mapped_seen(
            old(rt)@,
            final(rt)@,
            "cast_f16_to_f32"@,
            operand(*src),
            operand(r->Ok_0),
        ),
{
    broadcast use law_cast_fresh;

    let id: u64 = rt.id();
    require_own(id, src)?;
    src.validate()?;
    if src.dtype != DType::F16 {
        return Err(owned("cast_f16_to_f32 expects an f16 source"));
    }
    let dst = rt.alloc_tensor_f32(src.shape.as_slice())?;
    assert(operand(dst) =~= whole(dst.buffer@, src.shape@, DType::F32, id));
    cast_between(rt, src, dst, "cast_f16_to_f32")
}

// ------------------------------------------------------- bf16 on demand ----

/// A bf16 operand for a multiplication: the tensor itself where it is bf16, a
/// fresh cast where it is f32. An f16 one is refused, not converted.
pub open spec fn bf16_step(rt: RuntimeState, t: Operand) -> (
    RuntimeState,
    Result<(Operand, bool), Seq<char>>,
) {
    match t.dtype {
        DType::BF16 => (rt, Ok((t, false))),
        DType::F32 => {
            let (s, e) = cast_to_bf16_step(rt, t, BufferKind::Cold);
            match e {
                Ok(b) => (s, Ok((whole(b, t.shape, DType::BF16, t.runtime), true))),
                Err(m) => (s, Err(m)),
            }
        },
        DType::F16 => (
            rt,
            Err(
                "bf16 GEMM was asked for f16 operands; convert explicitly, or use the f16 kernels, which accumulate in f32 just as bf16 does"@,
            ),
        ),
    }
}

/// The cast of a tensor where one was made, the tensor itself elsewhere.
pub open spec fn chosen(made: Option<Tensor>, t: Tensor) -> Operand {
    match made {
        Some(m) => operand(m),
        None => operand(t),
    }
}

/// The cast of a tensor where one was made, the tensor itself elsewhere.
pub(crate) fn choose_cast<'a>(made: &'a Option<Tensor>, t: &'a Tensor) -> (r: &'a Tensor)
    ensures
        operand(*r) == chosen(*made, *t),
{
    match made {
        Some(m) => m,
        None => t,
    }
}

/// Casts an f32 operand to bf16; one that is bf16 already is used as it is.
pub(crate) fn ensure_bf16(rt: &mut GpuRuntime, t: &Tensor) -> (r: Result<Option<Tensor>, String>)
    requires
        old(rt).inv(),
    ensures
        final(rt).inv(),
        final(rt)@ == bf16_step(old(rt)@, operand(*t)).0,
        match bf16_step(old(rt)@, operand(*t)).1 {
            Ok(e) => {
                &&& r is Ok
                &&& chosen(r->Ok_0, *t) == e.0
                &&& (r->Ok_0 is Some) == e.1
            },
            Err(m) => r is Err && r->Err_0@ == m,
        },
{
    match t.dtype {
        DType::BF16 => Ok(None),
        DType::F32 => match cast_f32_to_bf16(rt, t) {
            Ok(d) => {
                assert(operand(d) =~= whole(d.buffer@, t.shape@, DType::BF16, t.runtime));
                Ok(Some(d))
            },
            Err(e) => Err(e),
        },
        DType::F16 => Err(
            owned(
                "bf16 GEMM was asked for f16 operands; convert explicitly, or use the f16 kernels, which accumulate in f32 just as bf16 does",
            ),
        ),
    }
}

/// After an operand made on demand was let go.
pub open spec fn let_go(rt: RuntimeState, t: Operand, made: bool) -> RuntimeState {
    if made {
        rt.retired(t.buffer)
    } else {
        rt
    }
}

pub(crate) fn release(rt: &mut GpuRuntime, made: Option<Tensor>)
    requires
        old(rt).inv(),
    ensures
        final(rt).inv(),
        final(rt)@ == match made {
            Some(t) => old(rt)@.retired(t.buffer@),
            None => old(rt)@,
        },
{
    match made {
        Some(t) => rt.recycle_buffer(t.buffer),
        None => {},
    }
}

} // verus!
