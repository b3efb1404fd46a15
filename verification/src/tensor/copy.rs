//! Copies on the device.

use vstd::prelude::*;

use crate::gemm::cast::{elementwise, elementwise_step, finished};
use crate::gemm::operand::{foreign_problem, operand, require_own, whole, Operand};
use crate::runtime::{spans_buffer, GpuRuntime};
use crate::state::RuntimeState;
use crate::tensor::{BufferKind, DType, Tensor};
use crate::text::{first, owned, reports, unless};

verus! {

impl DType {
    /// The kernel that copies elements of this size.
    pub open spec fn copy_kernel(self) -> Seq<char> {
        match self {
            DType::F32 => "copy_f32"@,
            DType::BF16 => "copy_bf16"@,
            DType::F16 => "copy_bf16"@,
        }
    }

    fn copy_kernel_name(self) -> (r: &'static str)
        ensures
            r@ == self.copy_kernel(),
    {
        match self {
            DType::F32 => "copy_f32",
            DType::BF16 => "copy_bf16",
            DType::F16 => "copy_bf16",
        }
    }
}

/// The two views start at the same byte of one allocation.
pub open spec fn same_place(src: Operand, dst: Operand) -> bool {
    src.buffer.slab.id == dst.buffer.slab.id && src.byte_offset == dst.byte_offset
}

/// What refuses a copy. Views of the same place may overlap.
pub open spec fn copy_problem(rt: u64, src: Operand, dst: Operand) -> Option<Seq<char>> {
    first(
        foreign_problem(rt, src),
        first(
            src.problem(),
            first(
                dst.problem(),
                first(
                    unless(
                        src.count() == dst.count() && src.dtype == dst.dtype && src.runtime
                            == dst.runtime,
                        "copy requires equal element counts/dtypes and the same runtime"@,
                    ),
                    first(
                        unless(
                            src.count() <= u32::MAX,
                            "copy exceeds 32-bit kernel indexing"@,
                        ),
                        unless(
                            same_place(src, dst) || !src.meets(dst),
                            "copy source and destination overlap"@,
                        ),
                    ),
                ),
            ),
        ),
    )
}

/// Effect of [`gpu_copy`]: a copy onto itself does nothing.
pub open spec fn copy_step(rt: RuntimeState, src: Operand, dst: Operand) -> (
    RuntimeState,
    Option<Seq<char>>,
) {
    match copy_problem(rt.id, src, dst) {
        Some(m) => (rt, Some(m)),
        None => if same_place(src, dst) {
            (rt, None)
        } else {
            elementwise_step(rt, src.dtype.copy_kernel(), src, dst, src.count())
        },
    }
}

/// Copies `src` to `dst` on the device: equal element counts and types. Encodes
/// into the active batch.
pub fn gpu_copy(rt: &mut GpuRuntime, src: &Tensor, dst: &Tensor) -> (r: Result<(), String>)
    requires
        old(rt).inv(),
    ensures
        final(rt).inv(),
        ({
            let (s, problem) = copy_step(old(rt)@, operand(*src), operand(*dst));
            final(rt)@ == s && reports(r, problem)
        }),
{
    let id: u64 = rt.id();
    require_own(id, src)?;
    src.validate()?;
    dst.validate()?;
    proof {
        crate::tensor::lemma_span(*src);
        crate::tensor::lemma_span(*dst);
    }
    let n: usize = src.numel();
    if n != dst.numel() || src.dtype != dst.dtype || src.runtime != dst.runtime {
        return Err(owned("copy requires equal element counts/dtypes and the same runtime"));
    }
    if n > u32::MAX as usize {
        return Err(owned("copy exceeds 32-bit kernel indexing"));
    }
    if src.buffer.aliases(&dst.buffer) && src.byte_offset == dst.byte_offset {
        return Ok(());
    }
    if src.overlaps(dst) {
        return Err(owned("copy source and destination overlap"));
    }
    elementwise(rt, src.dtype.copy_kernel_name(), src, dst, n)
}

/// Effect of [`Tensor::deep_copy`]: a fresh cold tensor of the same shape and
/// type, then the copy.
pub open spec fn deep_copy_step(rt: RuntimeState, src: Operand) -> (
    RuntimeState,
    Result<crate::tensor::Storage, Seq<char>>,
) {
    match first(foreign_problem(rt.id, src), src.problem()) {
        Some(m) => (rt, Err(m)),
        None => {
            let (s, a) = rt.tensor_allocated(src.shape, src.dtype, BufferKind::Cold);
            match a {
                Err(m) => (s, Err(m)),
                Ok(b) => finished(copy_step(s, src, whole(b, src.shape, src.dtype, rt.id)), b),
            }
        },
    }
}

impl Tensor {
    /// A fresh tensor with the same contents, copied on the device.
    pub fn deep_copy(&self, rt: &mut GpuRuntime) -> (r: Result<Tensor, String>)
        requires
            old(rt).inv(),
        ensures
            final(rt).inv(),
            ({
                let (s, e) = deep_copy_step(old(rt)@, operand(*self));
                &&& final(rt)@ == s
                &&& match e {
                    Ok(b) => r is Ok && spans_buffer(
                        r->Ok_0,
                        b,
                        self.shape@,
                        self.dtype,
                        self.runtime,
                    ),
                    Err(m) => r is Err && r->Err_0@ == m,
                }
            }),
    {
        let id: u64 = rt.id();
        require_own(id, self)?;
        self.validate()?;
        let t = match self.dtype {
            DType::F32 => rt.alloc_tensor_f32(self.shape.as_slice())?,
            DType::BF16 => rt.alloc_tensor_bf16(self.shape.as_slice())?,
            DType::F16 => rt.alloc_tensor_f16(self.shape.as_slice())?,
        };
        assert(operand(t) =~= whole(t.buffer@, self.shape@, self.dtype, id));
        match gpu_copy(rt, self, &t) {
            Ok(()) => Ok(t),
            Err(e) => {
                rt.recycle_buffer(t.buffer);
                Err(e)
            },
        }
    }
}

/// A copy that is carried out leaves the source's bytes alone: it writes only
/// where the destination is, and no byte is in both, unless they are the same
/// place and nothing is written at all.
pub proof fn law_copies_keep_their_source(rt: RuntimeState, src: Operand, dst: Operand, at: int)
    requires
        copy_step(rt, src, dst).1 is None,
        src.buffer.slab.id == dst.buffer.slab.id,
        src.byte_offset <= at < src.byte_offset + src.span(),
    ensures
        copy_step(rt, src, dst).0 == rt || !(dst.byte_offset <= at < dst.byte_offset
            + dst.span()),
{
}

} // verus!
