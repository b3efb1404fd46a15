//! Small elementwise operations that belong to no larger kernel family.

use vstd::prelude::*;

use crate::dispatch::{launch_1d, tensor_bind, Bind};
use crate::gemm::cast::{finished, operand_bind};
use crate::gemm::operand::{operand, whole, Operand};
use crate::nn::check::{float, float_at, positive, word, word_at};
use crate::runtime::{spans_buffer, GpuRuntime};
use crate::state::RuntimeState;
use crate::tensor::{BufferKind, DType, Storage, Tensor};
use crate::text::{first, owned, unless};
use crate::seen::in_view;
use crate::gemm::cast_laws::{law_softcap, softcap_seen};

verus! {

/// What refuses a softcap.
pub open spec fn softcap_problem(rt: u64, pre: Operand, softcap: u32) -> Option<Seq<char>> {
    first(
        pre.problem(),
        unless(
            pre.dtype == DType::F32 && pre.runtime == rt && positive(softcap)
                && pre.count() <= u32::MAX,
            "softcap requires f32, matching runtime, uint count, and a finite positive cap"@,
        ),
    )
}

/// Binds of the softcap kernel: source, destination, cap, count.
pub open spec fn softcap_binds(pre: Operand, post: Operand, softcap: u32) -> Seq<Bind> {
    seq![
        operand_bind(pre, 0),
        operand_bind(post, 1),
        float_at(softcap, 2),
        word_at(pre.count() as u32, 3),
    ]
}

/// Effect of [`softcap_f32`]: a fresh cold tensor, then one thread per element.
pub open spec fn softcap_step(rt: RuntimeState, pre: Operand, softcap: u32) -> (
    RuntimeState,
    Result<Storage, Seq<char>>,
) {
    match softcap_problem(rt.id, pre, softcap) {
        Some(m) => (rt, Err(m)),
        None => {
            let (s, a) = rt.tensor_allocated(pre.shape, DType::F32, BufferKind::Cold);
            match a {
                Err(m) => (s, Err(m)),
                Ok(b) => finished(
                    s.kernel_1d(
                        "softcap_f32"@,
                        pre.count() as usize,
                        softcap_binds(pre, whole(b, pre.shape, DType::F32, rt.id), softcap),
                    ),
                    b,
                ),
            }
        },
    }
}

fn softcap_into(rt: &mut GpuRuntime, pre: &Tensor, post: &Tensor, softcap: u32, n: usize) -> (r:
    Result<(), String>)
    requires
        old(rt).inv(),
        n == operand(*pre).count(),
    ensures
        final(rt).inv(),
        ({
            let (s, problem) = old(rt)@.kernel_1d(
                "softcap_f32"@,
                n,
                softcap_binds(operand(*pre), operand(*post), softcap),
            );
            final(rt)@ == s && crate::text::reports(r, problem)
        }),
{
    let p = rt.pipeline("softcap_f32")?;
    let binds = [
        tensor_bind(pre, 0),
        tensor_bind(post, 1),
        float(softcap, 2),
        word(n as u32, 3),
    ];
    assert(binds@ =~= softcap_binds(operand(*pre), operand(*post), softcap));
    launch_1d(rt, &p, n, &binds)
}

/// `softcap * tanh(pre / softcap)`, element by element, in a fresh tensor; the
/// cap is given by its bit pattern.
pub fn softcap_f32(rt: &mut GpuRuntime, pre: &Tensor, softcap: u32) -> (r: Result<Tensor, String>)
    requires
        old(rt).inv(),
    ensures
        final(rt).inv(),
        ({
            let (s, e) = softcap_step(old(rt)@, operand(*pre), softcap);
            &&& final(rt)@ == s
            &&& match e {
                Ok(b) => r is Ok && spans_buffer(
                    r->Ok_0,
                    b,
                    pre.shape@,
                    DType::F32,
                    old(rt)@.id,
                ),
                Err(m) => r is Err && r->Err_0@ == m,
            }
        }),
        r is Ok && operand(*pre).count() > 0 && in_view(old(rt)@, final(rt)@) ==> softcap_seen(
            old(rt)@,
            final(rt)@,
            operand(*pre),
            operand(r->Ok_0),
            softcap,
        ),
{
    broadcast use law_softcap;

    let id: u64 = rt.id();
    pre.validate()?;
    proof {
        crate::tensor::lemma_span(*pre);
    }
    let n: usize = pre.numel();
    if pre.dtype != DType::F32 || pre.runtime != id || softcap == 0 || softcap >= 0x7f80_0000 || n
        > u32::MAX as usize {
        return Err(
            owned("softcap requires f32, matching runtime, uint count, and a finite positive cap"),
        );
    }
    let post = rt.alloc_tensor_f32(pre.shape.as_slice())?;
    assert(operand(post) =~= whole(post.buffer@, pre.shape@, DType::F32, id));
    match softcap_into(rt, pre, &post, softcap, n) {
        Ok(()) => Ok(post),
        Err(e) => {
            rt.recycle_buffer(post.buffer);
            Err(e)
        },
    }
}

} // verus!
